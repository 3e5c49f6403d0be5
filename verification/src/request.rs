//! The request side: the origin-form start-line grammar, the header-block
//! parser and the request assembler.
//!
//! A start line is `<method> <uri> <protocol>`: one or more uppercase
//! letters, a single space, a path beginning with `/` and free of
//! whitespace, a single space, and a non-empty whitespace-free protocol
//! token. Unknown but well-formed method tokens are accepted as `UNKNOWN`;
//! only structural violations of the grammar are errors.

use vstd::prelude::*;

use crate::error::AppError;
use crate::error::ErrorKind;
use crate::header::EntryV;
use crate::header::HeaderMap;
use crate::header::HeaderName;
use crate::header::distinct_wires;
use crate::header::entries_model;
use crate::header::entries_view;
use crate::header::entry_view;
use crate::header::lookup_model;
use crate::text::contains_char;
use crate::text::find_first;
use crate::text::is_space;
use crate::text::str_eq;
use crate::text::trim_model;

verus! {

/// The closed set of request methods; anything unrecognized is absorbed
/// by `UNKNOWN` rather than failing the parse.
#[derive(Debug, Clone, Copy, PartialEq, Eq, Structural)]
pub enum HTTPMethod {
    GET,
    POST,
    UNKNOWN,
}

/// The method a token names.
pub open spec fn method_of(tok: Seq<char>) -> HTTPMethod {
    if tok == "GET"@ {
        HTTPMethod::GET
    } else if tok == "POST"@ {
        HTTPMethod::POST
    } else {
        HTTPMethod::UNKNOWN
    }
}

/// A method token: one or more ASCII uppercase letters.
pub open spec fn method_token_ok(s: Seq<char>) -> bool {
    s.len() > 0 && forall|i: int| 0 <= i < s.len() ==> 'A' <= #[trigger] s[i] <= 'Z'
}

/// A URI in origin form: begins with `/`, holds no whitespace.
pub open spec fn uri_token_ok(s: Seq<char>) -> bool {
    s.len() > 0 && s[0] == '/' && forall|i: int| 0 <= i < s.len() ==> !is_space(#[trigger] s[i])
}

/// A protocol token: non-empty, holds no whitespace.
pub open spec fn protocol_token_ok(s: Seq<char>) -> bool {
    s.len() > 0 && forall|i: int| 0 <= i < s.len() ==> !is_space(#[trigger] s[i])
}

/// The line splits at the spaces `i` and `j` into a method token, a URI
/// and a protocol token of the origin-form request-line grammar.
pub open spec fn start_line_split(s: Seq<char>, i: int, j: int) -> bool {
    &&& 0 <= i < j < s.len()
    &&& s[i] == ' '
    &&& s[j] == ' '
    &&& method_token_ok(s.take(i))
    &&& uri_token_ok(s.subrange(i + 1, j))
    &&& protocol_token_ok(s.skip(j + 1))
}

pub open spec fn valid_start_line(s: Seq<char>) -> bool {
    exists|i: int, j: int| start_line_split(s, i, j)
}

/// A split's first coordinate is the line's first space: the method token
/// holds no space, so no split can place it elsewhere.
proof fn lemma_split_first_space(s: Seq<char>, i: int, i2: int, j2: int)
    requires
        start_line_split(s, i2, j2),
        0 <= i < s.len(),
        s[i] == ' ',
        forall|k: int| 0 <= k < i ==> s[k] != ' ',
    ensures
        i2 == i,
{
    if i2 < i {
        assert(s[i2] != ' ');
    }
    if i < i2 {
        assert(s.take(i2)[i] == s[i]);
        assert('A' <= s.take(i2)[i] <= 'Z');
    }
}

/// Given the first coordinate, the second is the first space after it:
/// the URI holds no whitespace at all.
proof fn lemma_split_second_space(s: Seq<char>, i: int, j: int, j2: int)
    requires
        start_line_split(s, i, j2),
        i < j < s.len(),
        s[j] == ' ',
        forall|k: int| i + 1 <= k < j ==> s[k] != ' ',
    ensures
        j2 == j,
{
    if j2 < j {
        assert(s[j2] != ' ');
    }
    if j < j2 {
        assert(s.subrange(i + 1, j2)[j - (i + 1)] == s[j]);
        assert(!is_space(s.subrange(i + 1, j2)[j - (i + 1)]));
    }
}

/// Law: the grammar admits at most one split of a line.
pub proof fn lemma_split_unique(s: Seq<char>, i1: int, j1: int, i2: int, j2: int)
    requires
        start_line_split(s, i1, j1),
        start_line_split(s, i2, j2),
    ensures
        i1 == i2,
        j1 == j2,
{
    assert forall|k: int| 0 <= k < i1 implies s[k] != ' ' by {
        assert(s.take(i1)[k] == s[k]);
        assert('A' <= s.take(i1)[k] <= 'Z');
    }
    lemma_split_first_space(s, i1, i2, j2);
    assert forall|k: int| i1 + 1 <= k < j1 implies s[k] != ' ' by {
        assert(s.subrange(i1 + 1, j1)[k - (i1 + 1)] == s[k]);
        assert(!is_space(s.subrange(i1 + 1, j1)[k - (i1 + 1)]));
    }
    lemma_split_second_space(s, i1, j1, j2);
}

/// Scan for the first space at or after `from`.
fn find_space_from(s: &str, from: usize) -> (r: Option<usize>)
    requires
        from <= s@.len(),
    ensures
        match r {
            Some(i) => from <= i < s@.len() && s@[i as int] == ' ' && (forall|k: int|
                from <= k < i ==> s@[k] != ' '),
            None => forall|k: int| from <= k < s@.len() ==> s@[k] != ' ',
        },
{
    let n = s.unicode_len();
    let mut i: usize = from;
    while i < n
        invariant
            from <= i <= n,
            n == s@.len(),
            forall|k: int| from <= k < i ==> s@[k] != ' ',
        decreases n - i,
    {
        if s.get_char(i) == ' ' {
            return Some(i);
        }
        i += 1;
    }
    None
}

/// Whether every character in `[from, to)` is an ASCII uppercase letter.
fn all_upper_in(s: &str, from: usize, to: usize) -> (r: bool)
    requires
        from <= to <= s@.len(),
    ensures
        r == (forall|k: int| from <= k < to ==> 'A' <= #[trigger] s@[k] <= 'Z'),
{
    let mut i: usize = from;
    while i < to
        invariant
            from <= i <= to,
            to <= s@.len(),
            forall|k: int| from <= k < i ==> 'A' <= #[trigger] s@[k] <= 'Z',
        decreases to - i,
    {
        let c = s.get_char(i);
        if !('A' <= c && c <= 'Z') {
            return false;
        }
        i += 1;
    }
    true
}

/// Whether `[from, to)` is free of whitespace.
fn no_space_in(s: &str, from: usize, to: usize) -> (r: bool)
    requires
        from <= to <= s@.len(),
    ensures
        r == (forall|k: int| from <= k < to ==> !is_space(#[trigger] s@[k])),
{
    let mut i: usize = from;
    while i < to
        invariant
            from <= i <= to,
            to <= s@.len(),
            forall|k: int| from <= k < i ==> !is_space(#[trigger] s@[k]),
        decreases to - i,
    {
        if crate::text::is_space_char(s.get_char(i)) {
            return false;
        }
        i += 1;
    }
    true
}

/// Parse the start line of a request against the origin-form grammar.
/// On success the method token is mapped through the closed method table
/// and the raw URI (query string and all) is handed back; any structural
/// mismatch is an invalid start line.
pub fn identify(start_line: &str) -> (r: Result<(HTTPMethod, String), AppError>)
    ensures
        r is Ok <==> valid_start_line(start_line@),
        r matches Ok((m, uri)) ==> forall|i: int, j: int|
            start_line_split(start_line@, i, j) ==> m == method_of(start_line@.take(i)) && uri@
                == start_line@.subrange(i + 1, j),
        r matches Err(e) ==> e.kind == ErrorKind::InvalidStartLine,
{
    let ghost s = start_line@;
    let n = start_line.unicode_len();
    let osp1 = find_space_from(start_line, 0);
    if osp1.is_none() {
        proof {
            if valid_start_line(s) {
                let (i2, j2) = choose|i2: int, j2: int| start_line_split(s, i2, j2);
                assert(s[i2] != ' ');
            }
        }
        return Err(AppError::new(ErrorKind::InvalidStartLine));
    }
    let i = osp1.unwrap();
    if i == 0 {
        proof {
            if valid_start_line(s) {
                let (i2, j2) = choose|i2: int, j2: int| start_line_split(s, i2, j2);
                lemma_split_first_space(s, 0, i2, j2);
                assert(s.take(0).len() == 0);
            }
        }
        return Err(AppError::new(ErrorKind::InvalidStartLine));
    }
    if !all_upper_in(start_line, 0, i) {
        proof {
            if valid_start_line(s) {
                let (i2, j2) = choose|i2: int, j2: int| start_line_split(s, i2, j2);
                lemma_split_first_space(s, i as int, i2, j2);
                let k = choose|k: int| 0 <= k < i && !('A' <= #[trigger] s[k] <= 'Z');
                assert(s.take(i as int)[k] == s[k]);
                assert('A' <= s.take(i as int)[k] <= 'Z');
            }
        }
        return Err(AppError::new(ErrorKind::InvalidStartLine));
    }
    if i + 1 >= n {
        proof {
            if valid_start_line(s) {
                let (i2, j2) = choose|i2: int, j2: int| start_line_split(s, i2, j2);
                lemma_split_first_space(s, i as int, i2, j2);
            }
        }
        return Err(AppError::new(ErrorKind::InvalidStartLine));
    }
    if start_line.get_char(i + 1) != '/' {
        proof {
            if valid_start_line(s) {
                let (i2, j2) = choose|i2: int, j2: int| start_line_split(s, i2, j2);
                lemma_split_first_space(s, i as int, i2, j2);
                assert(s.subrange(i + 1, j2)[0] == s[i + 1]);
            }
        }
        return Err(AppError::new(ErrorKind::InvalidStartLine));
    }
    let osp2 = find_space_from(start_line, i + 1);
    if osp2.is_none() {
        proof {
            if valid_start_line(s) {
                let (i2, j2) = choose|i2: int, j2: int| start_line_split(s, i2, j2);
                lemma_split_first_space(s, i as int, i2, j2);
                assert(s[j2] != ' ');
            }
        }
        return Err(AppError::new(ErrorKind::InvalidStartLine));
    }
    let j = osp2.unwrap();
    if !no_space_in(start_line, i + 1, j) {
        proof {
            if valid_start_line(s) {
                let (i2, j2) = choose|i2: int, j2: int| start_line_split(s, i2, j2);
                lemma_split_first_space(s, i as int, i2, j2);
                lemma_split_second_space(s, i as int, j as int, j2);
                let k = choose|k: int| i + 1 <= k < j && is_space(#[trigger] s[k]);
                assert(s.subrange(i + 1, j as int)[k - (i + 1)] == s[k]);
                assert(!is_space(s.subrange(i + 1, j as int)[k - (i + 1)]));
            }
        }
        return Err(AppError::new(ErrorKind::InvalidStartLine));
    }
    if j + 1 >= n {
        proof {
            if valid_start_line(s) {
                let (i2, j2) = choose|i2: int, j2: int| start_line_split(s, i2, j2);
                lemma_split_first_space(s, i as int, i2, j2);
                lemma_split_second_space(s, i as int, j as int, j2);
            }
        }
        return Err(AppError::new(ErrorKind::InvalidStartLine));
    }
    if !no_space_in(start_line, j + 1, n) {
        proof {
            if valid_start_line(s) {
                let (i2, j2) = choose|i2: int, j2: int| start_line_split(s, i2, j2);
                lemma_split_first_space(s, i as int, i2, j2);
                lemma_split_second_space(s, i as int, j as int, j2);
                let k = choose|k: int| j + 1 <= k < n && is_space(#[trigger] s[k]);
                assert(s.skip(j + 1)[k - (j + 1)] == s[k]);
                assert(!is_space(s.skip(j + 1)[k - (j + 1)]));
            }
        }
        return Err(AppError::new(ErrorKind::InvalidStartLine));
    }
    proof {
        assert(s[i + 1] != ' ');
        assert(i + 1 < j < n);
        assert forall|k: int| 0 <= k < s.take(i as int).len() implies 'A' <= #[trigger] s.take(
            i as int,
        )[k] <= 'Z' by {
            assert(s.take(i as int)[k] == s[k]);
        }
        assert forall|k: int| 0 <= k < s.subrange(i + 1, j as int).len() implies !is_space(
            #[trigger] s.subrange(i + 1, j as int)[k],
        ) by {
            assert(s.subrange(i + 1, j as int)[k] == s[i + 1 + k]);
        }
        assert(s.subrange(i + 1, j as int)[0] == s[i + 1]);
        assert forall|k: int| 0 <= k < s.skip(j + 1).len() implies !is_space(
            #[trigger] s.skip(j + 1)[k],
        ) by {
            assert(s.skip(j + 1)[k] == s[j + 1 + k]);
        }
        assert(start_line_split(s, i as int, j as int));
    }
    let method_str = start_line.substring_char(0, i);
    let method = if str_eq(method_str, "GET") {
        HTTPMethod::GET
    } else if str_eq(method_str, "POST") {
        HTTPMethod::POST
    } else {
        HTTPMethod::UNKNOWN
    };
    let uri_str = start_line.substring_char(i + 1, j);
    let uri = String::from_str(uri_str);
    proof {
        assert(s.subrange(0, i as int) =~= s.take(i as int));
        assert(method == method_of(s.take(i as int)));
        assert forall|i2: int, j2: int| start_line_split(s, i2, j2) implies method == method_of(
            s.take(i2),
        ) && uri@ == s.subrange(i2 + 1, j2) by {
            lemma_split_unique(s, i as int, j as int, i2, j2);
        }
    }
    Ok((method, uri))
}

/// A parsed request.
#[derive(Debug)]
pub struct Request {
    pub method: HTTPMethod,
    pub uri: String,
    pub headers: HeaderMap,
}

/// The views of a list of lines.
pub open spec fn lines_view(v: Seq<String>) -> Seq<Seq<char>> {
    v.map_values(|s: String| s@)
}

pub open spec fn all_lines_have_colon(lines: Seq<Seq<char>>) -> bool {
    forall|k: int| 0 <= k < lines.len() ==> contains_char(#[trigger] lines[k], ':')
}

/// The entry a header line parses to: the text before the first colon,
/// classified, and the text after it, trimmed.
pub open spec fn parsed_entry(line: Seq<char>) -> EntryV {
    let i = find_first(line, ':')->Some_0;
    (lookup_model(line.take(i)), trim_model(line.skip(i + 1)))
}

/// The header map that a list of header lines builds: each line parsed
/// and inserted in order (last write wins for a repeated key).
pub open spec fn headers_model(lines: Seq<Seq<char>>) -> Seq<EntryV> {
    entries_model(lines.map_values(|l: Seq<char>| parsed_entry(l)))
}

/// Parse every header line and fold the results into a `HeaderMap`; the
/// first line without a colon fails the whole parse.
pub fn parse_header_lines(header_lines: &Vec<String>) -> (r: Result<HeaderMap, AppError>)
    ensures
        r is Ok <==> all_lines_have_colon(lines_view(header_lines@)),
        r matches Ok(m) ==> m@ == headers_model(lines_view(header_lines@)) && distinct_wires(m@),
        r matches Err(e) ==> e.kind == ErrorKind::MalformedHeaderLine,
{
    let ghost lv = lines_view(header_lines@);
    let ghost pv = lv.map_values(|l: Seq<char>| parsed_entry(l));
    let mut pairs: Vec<(HeaderName, String)> = Vec::new();
    let n = header_lines.len();
    let mut i: usize = 0;
    proof {
        assert(entries_view(pairs@) =~= pv.take(0));
    }
    while i < n
        invariant
            i <= n,
            n == header_lines@.len(),
            lv == lines_view(header_lines@),
            pv == lv.map_values(|l: Seq<char>| parsed_entry(l)),
            forall|k: int| 0 <= k < i ==> contains_char(#[trigger] lv[k], ':'),
            entries_view(pairs@) == pv.take(i as int),
        decreases n - i,
    {
        match HeaderName::parse(header_lines[i].as_str()) {
            Ok((name, value)) => {
                proof {
                    assert(lv[i as int] == header_lines@[i as int]@);
                    assert(pv[i as int] == parsed_entry(lv[i as int]));
                    assert(entry_view((name, value)) == pv[i as int]);
                }
                let ghost prev = pairs@;
                pairs.push((name, value));
                proof {
                    crate::header::lemma_entries_view_push(prev, (name, value));
                    assert(entries_view(prev).push(entry_view((name, value))) =~= pv.take(i + 1));
                }
            },
            Err(e) => {
                proof {
                    assert(lv[i as int] == header_lines@[i as int]@);
                    assert(!contains_char(lv[i as int], ':'));
                }
                return Err(e);
            },
        }
        i += 1;
    }
    proof {
        assert(pv.take(n as int) =~= pv);
    }
    Ok(HeaderMap::from_map(pairs))
}

/// Assemble the ordered lines of a message head into a request: line 0
/// is the start line, the rest are header lines. The first failure wins:
/// an empty head, then a bad start line, then a bad header line.
pub fn to_request(raw_headers: &Vec<String>) -> (r: Result<Request, AppError>)
    ensures
        r is Ok <==> raw_headers@.len() > 0 && valid_start_line(raw_headers@[0]@)
            && all_lines_have_colon(lines_view(raw_headers@.skip(1))),
        raw_headers@.len() == 0 ==> (r matches Err(e) && e.kind == ErrorKind::EmptyRequest),
        raw_headers@.len() > 0 && !valid_start_line(raw_headers@[0]@) ==> (r matches Err(e)
            && e.kind == ErrorKind::InvalidStartLine),
        raw_headers@.len() > 0 && valid_start_line(raw_headers@[0]@) && !all_lines_have_colon(
            lines_view(raw_headers@.skip(1)),
        ) ==> (r matches Err(e) && e.kind == ErrorKind::MalformedHeaderLine),
        r matches Ok(req) ==> {
            &&& forall|i: int, j: int|
                start_line_split(raw_headers@[0]@, i, j) ==> req.method == method_of(
                    raw_headers@[0]@.take(i),
                ) && req.uri@ == raw_headers@[0]@.subrange(i + 1, j)
            &&& req.headers@ == headers_model(lines_view(raw_headers@.skip(1)))
            &&& distinct_wires(req.headers@)
        },
{
    if raw_headers.len() == 0 {
        return Err(AppError::new(ErrorKind::EmptyRequest));
    }
    match identify(raw_headers[0].as_str()) {
        Err(e) => Err(e),
        Ok((method, uri)) => {
            let n = raw_headers.len();
            let mut rest: Vec<String> = Vec::new();
            let mut i: usize = 1;
            while i < n
                invariant
                    1 <= i <= n,
                    n == raw_headers@.len(),
                    rest@.len() == i - 1,
                    forall|k: int| 0 <= k < i - 1 ==> rest@[k] == raw_headers@[k + 1],
                decreases n - i,
            {
                rest.push(raw_headers[i].clone());
                i += 1;
            }
            proof {
                assert(rest@ =~= raw_headers@.skip(1));
            }
            match parse_header_lines(&rest) {
                Err(e) => Err(e),
                Ok(headers) => Ok(Request { method, uri, headers }),
            }
        },
    }
}

} // verus!

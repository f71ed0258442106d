//! What is read out of a request to the whitelist interface.
use vstd::prelude::*;
use vstd::string::*;

use crate::number::{
    a_number_is_its_digits, all_digits, is_digit, number, parse_number, positional,
};
use crate::text::{
    a_line_is_found, chars_of, find, find_from, lemma_find_from, lemma_find_from_is, lines,
    lines_of, matches_at, same, search, split, split_at_char, split_by, split_of_free, split_of_sum, split_on,
    strip_cr, text_of, texts,
};

verus! {

/// The first line of a request.
pub open spec fn first_line(req: Seq<char>) -> Seq<char> {
    if lines(req).len() > 0 {
        lines(req)[0]
    } else {
        seq![]
    }
}

/// The parts of the first line: what stands between the blanks.
pub open spec fn parts(req: Seq<char>) -> Seq<Seq<char>> {
    split_on(first_line(req), ' ')
}

/// What is asked for: the second part of the first line.
pub open spec fn url(req: Seq<char>) -> Seq<char> {
    if parts(req).len() > 1 {
        parts(req)[1]
    } else {
        seq![]
    }
}

/// What is asked for, without what stands behind a question mark.
pub open spec fn path(req: Seq<char>) -> Seq<char> {
    split_on(url(req), '?')[0]
}

/// The token that the first line names.
pub open spec fn query_token(req: Seq<char>) -> Seq<char> {
    let pieces = split(url(req), "?token="@);
    if pieces.len() > 1 {
        split_on(pieces[1], '&')[0]
    } else {
        seq![]
    }
}

/// The line by which a request shows the token.
pub open spec fn bearer_line(token: Seq<char>) -> Seq<char> {
    "Authorization: Bearer "@ + token
}

/// Whether a request shows the token, on a line of its own or in its first line.
pub open spec fn shows_token(req: Seq<char>, token: Seq<char>) -> bool {
    ||| lines(req).contains(bearer_line(token))
    ||| query_token(req).len() > 0 && query_token(req) == token
}

/// What stands behind the first empty line, up to the next one.
pub open spec fn body(req: Seq<char>) -> Option<Seq<char>> {
    let pieces = split(req, "\r\n\r\n"@);
    if pieces.len() > 1 {
        Some(pieces[1])
    } else {
        None
    }
}

/// What stands in quotes behind the first `"id"`.
pub open spec fn id_in(b: Seq<char>) -> Option<Seq<char>> {
    match find(b, "\"id\""@) {
        Some(at) => match find_from(b, seq!['"'], at + 4) {
            Some(open) => match find_from(b, seq!['"'], open + 1) {
                Some(close) => Some(b.subrange(open + 1, close)),
                None => None,
            },
            None => None,
        },
        None => None,
    }
}

/// Whether something can be read behind the first `"id"`: there is another quote, or at least a
/// character of one byte.
pub open spec fn id_is_readable_in(b: Seq<char>) -> bool {
    match find(b, "\"id\""@) {
        Some(at) => find_from(b, seq!['"'], at + 4) is Some || (at + 4 < b.len() && b[at + 4]
            <= '\u{7f}'),
        None => true,
    }
}

/// The identifier that a request names.
pub open spec fn json_id(req: Seq<char>) -> Option<Seq<char>> {
    match body(req) {
        Some(b) => id_in(b),
        None => None,
    }
}

/// Whether the body of a request, if there is one, can be searched for an identifier.
pub open spec fn id_is_readable(req: Seq<char>) -> bool {
    body(req) matches Some(b) ==> id_is_readable_in(b)
}

/// The first position not before `i` at which there is a digit, or something else.
pub open spec fn find_digit(s: Seq<char>, digit: bool, i: int) -> Option<int>
    decreases s.len() - i,
{
    if i < 0 || i >= s.len() {
        None
    } else if is_digit(s[i]) == digit {
        Some(i)
    } else {
        find_digit(s, digit, i + 1)
    }
}

/// A number of seconds above zero that fits.
pub open spec fn seconds_in(digits: Seq<char>) -> Option<u64> {
    match number(digits, u64::MAX as nat) {
        Ok(n) => if n > 0 {
            Some(n as u64)
        } else {
            None
        },
        Err(_) => None,
    }
}

/// The first number behind the first `"expire"`. There is none where that does not occur, where
/// no digit follows it, or where the number is zero or does not fit; the whole request is refused
/// where nothing follows it, or where the number reaches to the end.
pub open spec fn expire_in(b: Seq<char>) -> Option<Option<u64>> {
    match find(b, "\"expire\""@) {
        Some(at) => {
            let start = match find_digit(b, true, at + 8) {
                Some(i) => i,
                None => at + 8,
            };
            match find_digit(b, false, start) {
                Some(end) => Some(seconds_in(b.subrange(start, end))),
                None => None,
            }
        },
        None => Some(None),
    }
}

/// The identifier to be listed, and until when.
pub open spec fn add_params(req: Seq<char>) -> Option<(Seq<char>, Option<u64>)> {
    match (json_id(req), body(req)) {
        (Some(id), Some(b)) => match expire_in(b) {
            Some(expire) => Some((id, expire)),
            None => None,
        },
        _ => None,
    }
}

/// A position with a digit, or without one, and none such before it is the one that is found.
pub proof fn lemma_find_digit_is(s: Seq<char>, digit: bool, i: int, k: int)
    requires
        0 <= i <= k < s.len(),
        is_digit(s[k]) == digit,
        forall|j: int| i <= j < k ==> is_digit(#[trigger] s[j]) != digit,
    ensures
        find_digit(s, digit, i) == Some(k),
    decreases k - i,
{
    if i < k {
        assert(is_digit(s[i]) != digit);
        lemma_find_digit_is(s, digit, i + 1, k);
    }
}

/// Nothing is found where there is nothing.
pub proof fn lemma_find_digit_none(s: Seq<char>, digit: bool, i: int)
    requires
        0 <= i,
        forall|j: int| i <= j < s.len() ==> is_digit(#[trigger] s[j]) != digit,
    ensures
        find_digit(s, digit, i) is None,
    decreases s.len() - i,
{
    if i < s.len() {
        assert(is_digit(s[i]) != digit);
        lemma_find_digit_none(s, digit, i + 1);
    }
}

/// What stands behind the first empty line is the body, if there is no other empty line.
pub proof fn body_is_read(head: Seq<char>, b: Seq<char>)
    requires
        find(head + "\r\n\r\n"@, "\r\n\r\n"@) == Some(head.len() as int),
        find(b, "\r\n\r\n"@) is None,
    ensures
        body(head + "\r\n\r\n"@ + b) == Some(b),
{
    reveal_strlit("\r\n\r\n");
    let sep = "\r\n\r\n"@;
    let start = head + sep;
    let req = start + b;
    let n = head.len() as int;
    lemma_find_from(start, sep, 0);
    assert(req.subrange(n, n + 4) =~= sep);
    assert forall|j: int| 0 <= j < n implies !matches_at(req, sep, j) by {
        assert(req.subrange(j, j + 4) =~= start.subrange(j, j + 4));
        assert(!matches_at(start, sep, j));
    }
    lemma_find_from_is(req, sep, 0, n);
    assert(req.skip(n + 4) =~= b);
    assert(split(b, sep) =~= seq![b]);
    assert(split(req, sep)[1] == b);
}

/// The first line of a request that ends with a carriage return and a line feed.
proof fn lemma_first_line(line: Seq<char>, after: Seq<char>)
    requires
        !line.contains('\n'),
    ensures
        first_line(line + "\r\n"@ + after) == line,
{
    reveal_strlit("\r\n");
    let ended = line.push('\r');
    let req = line + "\r\n"@ + after;
    assert(req =~= ended.push('\n') + after);
    split_of_sum(ended, after, '\n');
    if ended.contains('\n') {
        let i = choose|i: int| 0 <= i < ended.len() && ended[i] == '\n';
        assert(line[i] == '\n');
    }
    split_of_free(ended, '\n');
    let pieces = split_on(req, '\n');
    assert(pieces[0] == ended);
    assert(split_on(after, '\n').len() > 0);
    assert(strip_cr(ended) =~= line);
    assert(lines(req)[0] == line);
}

/// The first line of a request is a method, what is asked for and a version, with blanks between
/// them: these are the parts that are read out of it.
pub proof fn the_first_line_is_read(
    method: Seq<char>,
    asked: Seq<char>,
    version: Seq<char>,
    after: Seq<char>,
)
    requires
        !method.contains(' ') && !method.contains('\n'),
        !asked.contains(' ') && !asked.contains('\n'),
        !version.contains('\n'),
    ensures
        ({
            let req = method.push(' ') + asked.push(' ') + version + "\r\n"@ + after;
            &&& parts(req) == seq![method, asked] + split_on(version, ' ')
            &&& url(req) == asked
        }),
{
    let line = method.push(' ') + asked.push(' ') + version;
    if line.contains('\n') {
        let i = choose|i: int| 0 <= i < line.len() && line[i] == '\n';
        let m = method.len() as int;
        let a = asked.len() as int;
        if i < m {
            assert(method[i] == '\n');
        } else if m < i < m + 1 + a {
            assert(asked[i - m - 1] == '\n');
        } else if i > m + 1 + a {
            assert(version[i - m - a - 2] == '\n');
        }
    }
    lemma_first_line(line, after);
    let rest = asked.push(' ') + version;
    assert(line =~= method.push(' ') + rest);
    split_of_sum(method, rest, ' ');
    split_of_sum(asked, version, ' ');
    split_of_free(method, ' ');
    split_of_free(asked, ' ');
    let req = line + "\r\n"@ + after;
    assert(parts(req) =~= seq![method, asked] + split_on(version, ' '));
}

/// A pattern is not met before the end of a text that does not hold it, if what follows the text
/// starts with a character that does not continue the pattern.
proof fn lemma_not_before(head: Seq<char>, tail: Seq<char>, pat: Seq<char>, j: int)
    requires
        find(head, pat) is None,
        0 <= j < head.len(),
        tail.len() > 0 ==> forall|k: int| 0 < k < pat.len() ==> pat[k] != tail[0],
    ensures
        !matches_at(head + tail, pat, j),
{
    let s = head + tail;
    let n = head.len() as int;
    lemma_find_from(head, pat, 0);
    if matches_at(s, pat, j) {
        let w = s.subrange(j, j + pat.len());
        if j + pat.len() <= n {
            assert(head.subrange(j, j + pat.len()) =~= w);
            assert(matches_at(head, pat, j));
        } else {
            assert(w[n - j] == s[n]);
            assert(s[n] == tail[0]);
        }
    }
}

/// What stands before the first `&`.
proof fn lemma_first_value(token: Seq<char>, more: Seq<char>)
    requires
        !token.contains('&'),
        more.len() > 0 ==> more[0] == '&',
    ensures
        split_on(token + more, '&')[0] == token,
{
    if more.len() == 0 {
        assert(token + more =~= token);
        split_of_free(token, '&');
    } else {
        assert(token + more =~= token.push('&') + more.skip(1));
        split_of_sum(token, more.skip(1), '&');
        split_of_free(token, '&');
    }
}

/// The first piece of a text that starts with one that does not hold the pattern.
proof fn lemma_first_piece(token: Seq<char>, more: Seq<char>, pat: Seq<char>) -> (kept: Seq<char>)
    requires
        find(token, pat) is None,
        pat.len() > 0,
        more.len() > 0 ==> forall|k: int| 0 <= k < pat.len() ==> pat[k] != more[0],
    ensures
        split(token + more, pat)[0] == token + kept,
        kept.len() > 0 ==> more.len() > 0 && kept[0] == more[0],
{
    let rest = token + more;
    let t = token.len() as int;
    lemma_find_from(rest, pat, 0);
    match find(rest, pat) {
        Some(k) => {
            if k < t {
                lemma_not_before(token, more, pat, k);
            }
            assert(rest.subrange(k, k + pat.len())[0] == pat[0]);
            assert(k >= t);
            let kept = more.take(k - t);
            assert(rest.take(k) =~= token + kept);
            assert(split(rest, pat)[0] == rest.take(k));
            kept
        },
        None => {
            assert(split(rest, pat)[0] == rest);
            more
        },
    }
}

/// A request whose first line names the token behind `?token=`, as the first or the only value,
/// shows the token.
pub proof fn the_query_token_is_enough(
    req: Seq<char>,
    before: Seq<char>,
    token: Seq<char>,
    more: Seq<char>,
)
    requires
        url(req) == before + "?token="@ + token + more,
        find(before, "?token="@) is None,
        find(token, "?token="@) is None,
        token.len() > 0,
        !token.contains('&'),
        more.len() > 0 ==> more[0] == '&',
    ensures
        shows_token(req, token),
{
    reveal_strlit("?token=");
    let pat = "?token="@;
    assert(pat =~= seq!['?', 't', 'o', 'k', 'e', 'n', '=']);
    assert forall|k: int| 0 < k < pat.len() implies pat[k] != '?' && pat[k] != '&' by {}
    let s = url(req);
    let n = before.len() as int;
    let tail = pat + token + more;
    assert(s =~= before + tail);
    assert(tail[0] == '?');
    assert(s.subrange(n, n + 7) =~= pat);
    assert forall|j: int| 0 <= j < n implies !matches_at(s, pat, j) by {
        lemma_not_before(before, tail, pat, j);
    }
    lemma_find_from_is(s, pat, 0, n);
    assert(s.skip(n + 7) =~= token + more);
    let kept = lemma_first_piece(token, more, pat);
    assert(split(s, pat)[1] == token + kept);
    lemma_first_value(token, kept);
}

/// A request that has the line with the token anywhere behind its first line shows the token.
pub proof fn the_bearer_line_is_enough(before: Seq<char>, token: Seq<char>, after: Seq<char>)
    requires
        !token.contains('\n'),
    ensures
        shows_token(before.push('\n') + bearer_line(token) + "\r\n"@ + after, token),
{
    reveal_strlit("Authorization: Bearer ");
    let start = "Authorization: Bearer "@;
    let line = bearer_line(token);
    assert(start =~= seq![
        'A',
        'u',
        't',
        'h',
        'o',
        'r',
        'i',
        'z',
        'a',
        't',
        'i',
        'o',
        'n',
        ':',
        ' ',
        'B',
        'e',
        'a',
        'r',
        'e',
        'r',
        ' ',
    ]);
    if line.contains('\n') {
        let i = choose|i: int| 0 <= i < line.len() && line[i] == '\n';
        if i < start.len() {
            assert(start[i] == '\n');
        } else {
            assert(token[i - start.len()] == '\n');
        }
    }
    a_line_is_found(before, line, after);
}

/// Searches for a digit, or for something else.
fn search_digit(s: &Vec<char>, digit: bool, from: usize) -> (r: Option<usize>)
    ensures
        match r {
            Some(i) => find_digit(s@, digit, from as int) == Some(i as int) && from <= i < s@.len(),
            None => find_digit(s@, digit, from as int) is None,
        },
{
    let mut i: usize = from;
    while i < s.len()
        invariant
            from <= i,
            find_digit(s@, digit, i as int) == find_digit(s@, digit, from as int),
        decreases s@.len() - i,
    {
        let here = '0' <= s[i] && s[i] <= '9';
        if here == digit {
            return Some(i);
        }
        i += 1;
    }
    None
}

/// The body of a request.
fn read_body(req: &str) -> (r: Option<Vec<char>>)
    ensures
        match r {
            Some(b) => body(req@) == Some(b@),
            None => body(req@) is None,
        },
{
    proof {
        reveal_strlit("\r\n\r\n");
    }
    let pieces = split_by(req, "\r\n\r\n");
    if pieces.len() > 1 {
        assert(split(req@, "\r\n\r\n"@)[1] == pieces@[1]@);
        Some(chars_of(pieces[1].as_str()))
    } else {
        None
    }
}

/// One double quote.
fn quote() -> (q: Vec<char>)
    ensures
        q@ == seq!['"'],
{
    let mut q: Vec<char> = Vec::new();
    q.push('"');
    assert(q@ =~= seq!['"']);
    q
}

/// Whether the body of a request can be searched for an identifier.
pub fn has_readable_id(req: &str) -> (r: bool)
    ensures
        r == id_is_readable(req@),
{
    proof {
        reveal_strlit("\"id\"");
    }
    match read_body(req) {
        Some(b) => match search(&b, &chars_of("\"id\""), 0) {
            Some(at) => {
                let from: usize = at + 4;
                search(&b, &quote(), from).is_some() || (from < b.len() && b[from] <= '\u{7f}')
            },
            None => true,
        },
        None => true,
    }
}

/// Reads the identifier that a request names.
pub fn extract_json_id(req: &str) -> (r: Option<String>)
    requires
        id_is_readable(req@),
    ensures
        match r {
            Some(id) => json_id(req@) == Some(id@),
            None => json_id(req@) is None,
        },
{
    proof {
        reveal_strlit("\"id\"");
    }
    match read_body(req) {
        Some(b) => match search(&b, &chars_of("\"id\""), 0) {
            Some(at) => match search(&b, &quote(), at + 4) {
                Some(open) => match search(&b, &quote(), open + 1) {
                    Some(close) => Some(text_of(&b, open + 1, close)),
                    None => None,
                },
                None => None,
            },
            None => None,
        },
        None => None,
    }
}

/// Reads the identifier to be listed, and until when.
pub fn extract_add_params(req: &str) -> (r: Option<(String, Option<u64>)>)
    requires
        id_is_readable(req@),
    ensures
        match r {
            Some(p) => add_params(req@) == Some((p.0@, p.1)),
            None => add_params(req@) is None,
        },
{
    proof {
        reveal_strlit("\"expire\"");
    }
    let b = match read_body(req) {
        Some(b) => b,
        None => {
            return None;
        },
    };
    let id = match extract_json_id(req) {
        Some(id) => id,
        None => {
            return None;
        },
    };
    let expire: Option<u64> = match search(&b, &chars_of("\"expire\""), 0) {
        Some(at) => {
            let start: usize = match search_digit(&b, true, at + 8) {
                Some(i) => i,
                None => at + 8,
            };
            match search_digit(&b, false, start) {
                Some(end) => read_seconds(text_of(&b, start, end).as_str()),
                None => {
                    return None;
                },
            }
        },
        None => None,
    };
    Some((id, expire))
}

/// Reads a number of seconds above zero.
fn read_seconds(digits: &str) -> (r: Option<u64>)
    ensures
        r == seconds_in(digits@),
{
    match parse_number(digits, u64::MAX) {
        Ok(n) => {
            if n > 0 {
                Some(n)
            } else {
                None
            }
        },
        Err(_) => None,
    }
}

/// The first line of a request, taken apart.
pub struct RequestLine {
    /// What stands between the blanks.
    pub parts: Vec<String>,
    /// The token that it names.
    pub token: String,
    /// What is asked for, without what stands behind a question mark.
    pub path: String,
}

/// Takes the first line of a request apart.
pub fn read_request_line(req: &str) -> (r: RequestLine)
    ensures
        texts(r.parts@) == parts(req@),
        r.parts@.len() > 0,
        r.token@ == query_token(req@),
        r.path@ == path(req@),
{
    proof {
        reveal_strlit("?token=");
    }
    let all = lines_of(req);
    let first = if all.len() > 0 {
        assert(lines(req@)[0] == all@[0]@);
        all[0].clone()
    } else {
        String::new()
    };
    assert(first@ =~= first_line(req@));
    let parts = split_at_char(first.as_str(), ' ');
    let asked = if parts.len() > 1 {
        assert(split_on(first@, ' ')[1] == parts@[1]@);
        parts[1].clone()
    } else {
        String::new()
    };
    assert(asked@ =~= url(req@));
    let pieces = split_by(asked.as_str(), "?token=");
    let token = if pieces.len() > 1 {
        assert(split(asked@, "?token="@)[1] == pieces@[1]@);
        let values = split_at_char(pieces[1].as_str(), '&');
        assert(split_on(pieces@[1]@, '&')[0] == values@[0]@);
        values[0].clone()
    } else {
        String::new()
    };
    assert(token@ =~= query_token(req@));
    let paths = split_at_char(asked.as_str(), '?');
    assert(split_on(asked@, '?')[0] == paths@[0]@);
    RequestLine { parts, token, path: paths[0].clone() }
}

/// Whether a request shows the token.
pub fn is_authorised(req: &str, token: &str) -> (r: bool)
    ensures
        r == shows_token(req@, token@),
{
    let mut wanted = "Authorization: Bearer ".to_owned();
    wanted.append(token);
    let all = lines_of(req);
    let mut i: usize = 0;
    while i < all.len()
        invariant
            i <= all@.len(),
            texts(all@) == lines(req@),
            wanted@ == bearer_line(token@),
            forall|j: int| 0 <= j < i ==> #[trigger] lines(req@)[j] != wanted@,
        decreases all@.len() - i,
    {
        assert(lines(req@)[i as int] == all@[i as int]@);
        if same(all[i].as_str(), wanted.as_str()) {
            assert(lines(req@).contains(bearer_line(token@)));
            return true;
        }
        i += 1;
    }
    let named = read_request_line(req).token;
    !named.as_str().is_empty() && same(named.as_str(), token)
}

/// What is found at the end of a text is found there too where the text goes on.
proof fn lemma_found_at(head: Seq<char>, word: Seq<char>, tail: Seq<char>)
    requires
        find(head + word, word) == Some(head.len() as int),
    ensures
        find(head + word + tail, word) == Some(head.len() as int),
{
    let start = head + word;
    let s = start + tail;
    let n = head.len() as int;
    lemma_find_from(start, word, 0);
    assert(s.subrange(n, n + word.len()) =~= word);
    assert forall|j: int| 0 <= j < n implies !matches_at(s, word, j) by {
        assert(s.subrange(j, j + word.len()) =~= start.subrange(j, j + word.len()));
        assert(!matches_at(start, word, j));
    }
    lemma_find_from_is(s, word, 0, n);
}

/// The next quote stands behind what holds none.
proof fn lemma_next_quote(b: Seq<char>, from: int, gap: Seq<char>)
    requires
        0 <= from,
        from + gap.len() < b.len(),
        b.subrange(from, from + gap.len()) == gap,
        b[from + gap.len()] == '"',
        !gap.contains('"'),
    ensures
        find_from(b, seq!['"'], from) == Some(from + gap.len()),
{
    let quote = seq!['"'];
    let k = from + gap.len();
    assert(b.subrange(k, k + 1) =~= quote);
    assert forall|j: int| from <= j < k implies !matches_at(b, quote, j) by {
        if matches_at(b, quote, j) {
            assert(b.subrange(j, j + 1)[0] == quote[0]);
            assert(b.subrange(from, k)[j - from] == '"');
            assert(gap[j - from] == '"');
        }
    }
    lemma_find_from_is(b, quote, from, k);
}

/// What stands in quotes behind the first `"id"` is read as the identifier, whatever stands before
/// it, between the two and behind it.
pub proof fn the_id_is_read(
    before: Seq<char>,
    gap: Seq<char>,
    id: Seq<char>,
    after: Seq<char>,
)
    requires
        find(before + "\"id\""@, "\"id\""@) == Some(before.len() as int),
        !gap.contains('"'),
        !id.contains('"'),
    ensures
        id_in(before + "\"id\""@ + gap + "\""@ + id + "\""@ + after) == Some(id),
        id_is_readable_in(before + "\"id\""@ + gap + "\""@ + id + "\""@ + after),
{
    reveal_strlit("\"id\"");
    reveal_strlit("\"");
    let word = "\"id\""@;
    let one = "\""@;
    assert(one =~= seq!['"']);
    let b = before + word + gap + one + id + one + after;
    let tail = gap + one + id + one + after;
    let n = before.len() as int;
    assert(b =~= before + word + tail);
    lemma_found_at(before, word, tail);
    let open = n + 4 + gap.len();
    assert(b.subrange(n + 4, open) =~= gap);
    assert(b[open] == one[0]);
    lemma_next_quote(b, n + 4, gap);
    let close = open + 1 + id.len();
    assert(b.subrange(open + 1, close) =~= id);
    assert(b[close] == one[0]);
    lemma_next_quote(b, open + 1, id);
}

/// An identifier is read only where there is one: it stands between two quotes behind an `"id"`,
/// and holds no quote itself.
pub proof fn an_id_stands_in_quotes(b: Seq<char>)
    ensures
        id_in(b) matches Some(id) ==> !id.contains('"') && exists|at: int, open: int|
            #![trigger matches_at(b, "\"id\""@, at), b[open]]
            matches_at(b, "\"id\""@, at) && at + 4 <= open && open + 1 + id.len() < b.len()
                && b[open] == '"' && b.subrange(open + 1, open + 1 + id.len()) == id && b[open + 1
                + id.len()] == '"',
        find(b, "\"id\""@) is None ==> id_in(b) is None && id_is_readable_in(b),
{
    reveal_strlit("\"id\"");
    let word = "\"id\""@;
    let quote = seq!['"'];
    if let Some(id) = id_in(b) {
        lemma_find_from(b, word, 0);
        let at = find(b, word)->0;
        lemma_find_from(b, quote, at + 4);
        let open = find_from(b, quote, at + 4)->0;
        lemma_find_from(b, quote, open + 1);
        let close = find_from(b, quote, open + 1)->0;
        assert(b.subrange(open, open + 1)[0] == quote[0]);
        assert(b.subrange(close, close + 1)[0] == quote[0]);
        assert(id.len() == close - open - 1);
        if id.contains('"') {
            let k = choose|k: int| 0 <= k < id.len() && id[k] == '"';
            let j = open + 1 + k;
            assert(b[j] == '"');
            assert(b.subrange(j, j + 1) =~= quote);
            assert(matches_at(b, quote, j));
        }
        assert(matches_at(b, word, at));
        assert(b[open] == '"');
    }
}

/// The digits behind the first `"expire"` are read as a number of seconds, whatever stands before
/// it, between the two and behind them; zero and what does not fit count as none. If nothing stands
/// behind the digits, the request is refused.
pub proof fn the_time_is_read(
    before: Seq<char>,
    gap: Seq<char>,
    digits: Seq<char>,
    after: Seq<char>,
)
    requires
        find(before + "\"expire\""@, "\"expire\""@) == Some(before.len() as int),
        forall|i: int| 0 <= i < gap.len() ==> !is_digit(#[trigger] gap[i]),
        digits.len() > 0 && all_digits(digits),
        after.len() > 0 ==> !is_digit(after[0]),
    ensures
        ({
            let b = before + "\"expire\""@ + gap + digits + after;
            let seconds = positional(digits);
            &&& after.len() == 0 ==> expire_in(b) is None
            &&& after.len() > 0 ==> (expire_in(b) matches Some(time) && (time is Some <==> 0
                < seconds <= u64::MAX) && (time matches Some(t) ==> t == seconds))
        }),
{
    reveal_strlit("\"expire\"");
    let word = "\"expire\""@;
    let b = before + word + gap + digits + after;
    let tail = gap + digits + after;
    let n = before.len() as int;
    let start = n + 8 + gap.len();
    let end = start + digits.len();
    assert(b =~= before + word + tail);
    lemma_found_at(before, word, tail);
    assert forall|i: int| n + 8 <= i < start implies !is_digit(#[trigger] b[i]) by {
        assert(b[i] == gap[i - n - 8]);
    }
    assert forall|i: int| start <= i < end implies is_digit(#[trigger] b[i]) by {
        assert(b[i] == digits[i - start]);
    }
    lemma_find_digit_is(b, true, n + 8, start);
    if after.len() > 0 {
        assert(b[end] == after[0]);
        lemma_find_digit_is(b, false, start, end);
        assert(b.subrange(start, end) =~= digits);
        assert(digits[0] != '+');
        a_number_is_its_digits(digits, u64::MAX as nat);
    } else {
        lemma_find_digit_none(b, false, start);
    }
}

/// Without an `"expire"` there is no time, and neither is there one where no digit follows it; where
/// nothing at all follows it, the request is refused.
pub proof fn no_time_is_read(before: Seq<char>, gap: Seq<char>, b: Seq<char>)
    requires
        find(before + "\"expire\""@, "\"expire\""@) == Some(before.len() as int),
        forall|i: int| 0 <= i < gap.len() ==> !is_digit(#[trigger] gap[i]),
    ensures
        find(b, "\"expire\""@) is None ==> expire_in(b) == Some(None::<u64>),
        gap.len() > 0 ==> expire_in(before + "\"expire\""@ + gap) == Some(None::<u64>),
        gap.len() == 0 ==> expire_in(before + "\"expire\""@ + gap) is None,
{
    reveal_strlit("\"expire\"");
    let word = "\"expire\""@;
    let s = before + word + gap;
    let from = before.len() as int + 8;
    lemma_found_at(before, word, gap);
    assert forall|i: int| from <= i < s.len() implies !is_digit(#[trigger] s[i]) by {
        assert(s[i] == gap[i - from]);
    }
    lemma_find_digit_none(s, true, from);
    if gap.len() > 0 {
        lemma_find_digit_is(s, false, from, from);
        assert(s.subrange(from, from) =~= Seq::<char>::empty());
        a_number_is_its_digits(Seq::<char>::empty(), u64::MAX as nat);
    }
}

/// What is to be added is read out of the body alone, and needs an identifier and a time that is
/// not cut off; an identifier alone is read out of the body too.
pub proof fn both_are_read_out_of_the_body(req: Seq<char>)
    ensures
        match body(req) {
            Some(b) => {
                &&& json_id(req) == id_in(b)
                &&& add_params(req) is Some <==> id_in(b) is Some && expire_in(b) is Some
                &&& add_params(req) matches Some(p) ==> id_in(b) == Some(p.0) && expire_in(b)
                    == Some(p.1)
            },
            None => json_id(req) is None && add_params(req) is None && id_is_readable(req),
        },
{
}

/// A request without an empty line has no body, and another empty line ends the body.
pub proof fn empty_lines_bound_the_body(head: Seq<char>, b: Seq<char>, rest: Seq<char>)
    requires
        find(head + "\r\n\r\n"@, "\r\n\r\n"@) == Some(head.len() as int),
        find(b + "\r\n\r\n"@, "\r\n\r\n"@) == Some(b.len() as int),
    ensures
        body(head + "\r\n\r\n"@ + (b + "\r\n\r\n"@ + rest)) == Some(b),
        forall|req: Seq<char>| find(req, "\r\n\r\n"@) is None ==> #[trigger] body(req) is None,
{
    reveal_strlit("\r\n\r\n");
    let sep = "\r\n\r\n"@;
    let tail = b + sep + rest;
    let req = head + sep + tail;
    lemma_found_at(head, sep, tail);
    lemma_found_at(b, sep, rest);
    let n = head.len() as int;
    assert(req.skip(n + 4) =~= tail);
    assert(tail.take(b.len() as int) =~= b);
    assert(split(tail, sep)[0] == b);
    assert(split(req, sep)[1] == b);
}

/// The path is what is asked for up to the first question mark, or all of it.
pub proof fn the_query_is_left_out(req: Seq<char>, before: Seq<char>, query: Seq<char>)
    requires
        !before.contains('?'),
    ensures
        url(req) == before ==> path(req) == before,
        url(req) == before.push('?') + query ==> path(req) == before,
{
    split_of_free(before, '?');
    split_of_sum(before, query, '?');
}

/// Who shows the token has it on a line of its own behind the words of the header, or, if it is not
/// empty, behind `?token=` in what is asked for. There is no other way.
pub proof fn there_is_no_other_way_in(req: Seq<char>, token: Seq<char>)
    requires
        shows_token(req, token),
    ensures
        lines(req).contains("Authorization: Bearer "@ + token) || (token.len() > 0 && exists|p: int|
            #[trigger] matches_at(url(req), "?token="@ + token, p)),
{
    reveal_strlit("?token=");
    if !lines(req).contains("Authorization: Bearer "@ + token) {
        let pat = "?token="@;
        let s = url(req);
        let pieces = split(s, pat);
        lemma_find_from(s, pat, 0);
        let p = find(s, pat)->0;
        let rest = s.skip(p + 7);
        assert(pieces =~= seq![s.take(p)] + split(rest, pat));
        assert(pieces[1] == split(rest, pat)[0]);
        lemma_first_is_prefix(rest, pat);
        let piece = pieces[1];
        lemma_first_is_prefix(piece, seq!['&']);
        assert(token == split_on(piece, '&')[0]);
        let t = token.len() as int;
        assert(rest.take(t) =~= token) by {
            assert(piece.take(t) == token);
            assert(rest.take(piece.len() as int) == piece);
            assert(rest.take(t) =~= rest.take(piece.len() as int).take(t));
        }
        assert(s.subrange(p, p + 7) == pat);
        assert(s.subrange(p, p + 7 + t) =~= pat + token) by {
            assert(s.subrange(p, p + 7 + t) =~= s.subrange(p, p + 7) + rest.take(t));
        }
        assert(matches_at(s, pat + token, p));
    }
}

/// The first piece is what the text starts with.
proof fn lemma_first_is_prefix(s: Seq<char>, pat: Seq<char>)
    ensures
        split(s, pat)[0].len() <= s.len(),
        s.take(split(s, pat)[0].len() as int) == split(s, pat)[0],
{
    lemma_find_from(s, pat, 0);
    assert(s.take(s.len() as int) =~= s);
}

/// A body cannot be searched for an identifier exactly where no quote follows its first `"id"`, and
/// what follows it is nothing or a character of more than one byte.
pub proof fn what_cannot_be_read(b: Seq<char>)
    ensures
        match find(b, "\"id\""@) {
            Some(at) => id_is_readable_in(b) <==> (exists|k: int|
                at + 4 <= k < b.len() && #[trigger] b[k] == '"') || (at + 4 < b.len() && b[at
                + 4] as int <= 127),
            None => id_is_readable_in(b),
        },
{
    reveal_strlit("\"id\"");
    let quote = seq!['"'];
    lemma_find_from(b, "\"id\""@, 0);
    if let Some(at) = find(b, "\"id\""@) {
        lemma_find_from(b, quote, at + 4);
        if let Some(k) = find_from(b, quote, at + 4) {
            assert(b.subrange(k, k + 1)[0] == quote[0]);
            assert(b[k] == '"');
        }
        if exists|k: int| at + 4 <= k < b.len() && #[trigger] b[k] == '"' {
            let k = choose|k: int| at + 4 <= k < b.len() && #[trigger] b[k] == '"';
            assert(b.subrange(k, k + 1) =~= quote);
            assert(matches_at(b, quote, k));
        }
    }
}

} // verus!

//! The interface through which the whitelist is kept.
use vstd::prelude::*;
use vstd::string::*;
use vstd::utf8::{decode_utf8, valid_utf8};

use crate::encoding::{lossy_text, utf8_lossy};
use crate::number::{decimal, decimal_is_digits, is_digit, print_number, read_back};
use crate::request::{
    add_params, body_is_read, expire_in, extract_add_params, extract_json_id, has_readable_id,
    id_in, id_is_readable, id_is_readable_in, is_authorised, json_id, lemma_find_digit_is,
    lemma_find_digit_none, parts, path, read_request_line, shows_token, the_first_line_is_read,
    the_query_is_left_out,
};
use crate::table::TextMap;
use crate::text::{find, join, lemma_find_from_is, matches_at, same};

verus! {

/// The machines that may be reached, each with the time at which that ends, if it does.
pub type Whitelist = TextMap<Option<u64>>;

/// What is done about a request.
pub enum ApiReply {
    /// This is sent back.
    Answer(String),
    /// The whitelist was changed: it is written to its file first, then this is sent back.
    Saved(String),
    /// Nothing is sent back.
    Close,
    /// Nothing is sent back: the body breaks off where an identifier is expected.
    Abort,
}

/// What is done about a request, as contracts speak of it.
pub enum ApiReplyView {
    Answer(Seq<char>),
    Saved(Seq<char>),
    Close,
    Abort,
}

impl View for ApiReply {
    type V = ApiReplyView;

    open spec fn view(&self) -> ApiReplyView {
        match self {
            ApiReply::Answer(t) => ApiReplyView::Answer(t@),
            ApiReply::Saved(t) => ApiReplyView::Saved(t@),
            ApiReply::Close => ApiReplyView::Close,
            ApiReply::Abort => ApiReplyView::Abort,
        }
    }
}

/// What an authorised request asks for.
#[derive(Clone, Copy, Debug, PartialEq, Eq, Structural)]
pub enum Route {
    Page,
    List,
    Add,
    Remove,
    Unknown,
}

/// What a method and a path ask for.
pub open spec fn route_of(method: Seq<char>, path: Seq<char>) -> Route {
    if method == "GET"@ && path == "/"@ {
        Route::Page
    } else if method == "GET"@ && path == "/api/list"@ {
        Route::List
    } else if method == "POST"@ && path == "/api/add"@ {
        Route::Add
    } else if method == "POST"@ && path == "/api/remove"@ {
        Route::Remove
    } else {
        Route::Unknown
    }
}

/// What a request asks for.
pub open spec fn route(req: Seq<char>) -> Route {
    route_of(parts(req)[0], path(req))
}

/// Whether a request may ask for something: it shows the token, and its first line has more than
/// one part.
pub open spec fn is_heard(req: Seq<char>, token: Seq<char>) -> bool {
    shows_token(req, token) && parts(req).len() > 1
}

/// One entry of the whitelist, written down.
pub open spec fn entry_text(id: Seq<char>, expire: Option<u64>) -> Seq<char> {
    "{\"id\":\""@ + id + "\",\"expire\":"@ + (match expire {
        Some(t) => decimal(t as nat),
        None => "null"@,
    }) + "}"@
}

/// The entries of the whitelist, written down.
pub open spec fn entry_texts(pairs: Seq<(Seq<char>, Option<u64>)>) -> Seq<Seq<char>> {
    pairs.map_values(|p: (Seq<char>, Option<u64>)| entry_text(p.0, p.1))
}

/// The whitelist, written down.
pub open spec fn list_text(pairs: Seq<(Seq<char>, Option<u64>)>) -> Seq<char> {
    "["@ + join(entry_texts(pairs), ","@) + "]"@
}

/// What is done about a request, with the entries of the whitelist and the page to be shown.
pub open spec fn reply_to(
    req: Seq<char>,
    token: Seq<char>,
    page: Seq<char>,
    pairs: Seq<(Seq<char>, Option<u64>)>,
) -> ApiReplyView {
    if !shows_token(req, token) {
        ApiReplyView::Answer("HTTP/1.1 401 Unauthorized\r\n\r\n"@)
    } else if parts(req).len() < 2 {
        ApiReplyView::Close
    } else {
        match route(req) {
            Route::Page => ApiReplyView::Answer(
                "HTTP/1.1 200 OK\r\nContent-Type: text/html; charset=utf-8\r\n\r\n"@ + page,
            ),
            Route::List => ApiReplyView::Answer(
                "HTTP/1.1 200 OK\r\nContent-Type: application/json\r\n\r\n"@ + list_text(pairs),
            ),
            Route::Add => if !id_is_readable(req) {
                ApiReplyView::Abort
            } else if add_params(req) is Some {
                ApiReplyView::Saved("HTTP/1.1 200 OK\r\n\r\nok"@)
            } else {
                ApiReplyView::Answer("HTTP/1.1 400 Bad Request\r\n\r\n"@)
            },
            Route::Remove => if !id_is_readable(req) {
                ApiReplyView::Abort
            } else if json_id(req) is Some {
                ApiReplyView::Saved("HTTP/1.1 200 OK\r\n\r\nok"@)
            } else {
                ApiReplyView::Answer("HTTP/1.1 400 Bad Request\r\n\r\n"@)
            },
            Route::Unknown => ApiReplyView::Answer("HTTP/1.1 404 Not Found\r\n\r\n"@),
        }
    }
}

/// The whitelist after a request.
pub open spec fn whitelist_after(
    req: Seq<char>,
    token: Seq<char>,
    list: Map<Seq<char>, Option<u64>>,
) -> Map<Seq<char>, Option<u64>> {
    if !is_heard(req, token) || !id_is_readable(req) {
        list
    } else {
        match route(req) {
            Route::Add => match add_params(req) {
                Some(p) => list.insert(p.0, p.1),
                None => list,
            },
            Route::Remove => match json_id(req) {
                Some(id) => list.remove(id),
                None => list,
            },
            _ => list,
        }
    }
}

/// What a method and a path ask for.
pub fn read_route(method: &str, path: &str) -> (r: Route)
    ensures
        r == route_of(method@, path@),
{
    if same(method, "GET") && same(path, "/") {
        Route::Page
    } else if same(method, "GET") && same(path, "/api/list") {
        Route::List
    } else if same(method, "POST") && same(path, "/api/add") {
        Route::Add
    } else if same(method, "POST") && same(path, "/api/remove") {
        Route::Remove
    } else {
        Route::Unknown
    }
}

/// Follows a request.
pub fn respond(req: &str, token: &str, page: &str, list: &mut Whitelist) -> (r: ApiReply)
    requires
        old(list).wf(),
    ensures
        final(list).wf(),
        r@ == reply_to(req@, token@, page@, old(list).pairs()),
        final(list)@ == whitelist_after(req@, token@, old(list)@),
{
    if !is_authorised(req, token) {
        return ApiReply::Answer("HTTP/1.1 401 Unauthorized\r\n\r\n".to_owned());
    }
    let line = read_request_line(req);
    if line.parts.len() < 2 {
        return ApiReply::Close;
    }
    assert(parts(req@)[0] == line.parts@[0]@);
    match read_route(line.parts[0].as_str(), line.path.as_str()) {
        Route::Page => {
            let mut s = "HTTP/1.1 200 OK\r\nContent-Type: text/html; charset=utf-8\r\n\r\n".to_owned();
            s.append(page);
            ApiReply::Answer(s)
        },
        Route::List => {
            let mut s = "HTTP/1.1 200 OK\r\nContent-Type: application/json\r\n\r\n".to_owned();
            s.append(write_list(list).as_str());
            ApiReply::Answer(s)
        },
        Route::Add => {
            if !has_readable_id(req) {
                return ApiReply::Abort;
            }
            match extract_add_params(req) {
                Some((id, expire)) => {
                    list.insert(id, expire);
                    ApiReply::Saved("HTTP/1.1 200 OK\r\n\r\nok".to_owned())
                },
                None => ApiReply::Answer("HTTP/1.1 400 Bad Request\r\n\r\n".to_owned()),
            }
        },
        Route::Remove => {
            if !has_readable_id(req) {
                return ApiReply::Abort;
            }
            match extract_json_id(req) {
                Some(id) => {
                    let _ = list.remove(id.as_str());
                    ApiReply::Saved("HTTP/1.1 200 OK\r\n\r\nok".to_owned())
                },
                None => ApiReply::Answer("HTTP/1.1 400 Bad Request\r\n\r\n".to_owned()),
            }
        },
        Route::Unknown => ApiReply::Answer("HTTP/1.1 404 Not Found\r\n\r\n".to_owned()),
    }
}

/// Follows a request that came as bytes.
pub fn respond_to_bytes(bytes: &[u8], token: &str, page: &str, list: &mut Whitelist) -> (r: ApiReply)
    requires
        old(list).wf(),
    ensures
        final(list).wf(),
        r@ == reply_to(lossy_text(bytes@), token@, page@, old(list).pairs()),
        final(list)@ == whitelist_after(lossy_text(bytes@), token@, old(list)@),
        valid_utf8(bytes@) ==> r@ == reply_to(
            decode_utf8(bytes@),
            token@,
            page@,
            old(list).pairs(),
        ) && final(list)@ == whitelist_after(decode_utf8(bytes@), token@, old(list)@),
{
    let req = utf8_lossy(bytes);
    respond(req.as_str(), token, page, list)
}

/// Writes one entry of the whitelist.
pub fn write_entry(id: &str, expire: Option<u64>) -> (s: String)
    ensures
        s@ == entry_text(id@, expire),
{
    let mut s = "{\"id\":\"".to_owned();
    s.append(id);
    s.append("\",\"expire\":");
    match expire {
        Some(t) => s.append(print_number(t).as_str()),
        None => s.append("null"),
    }
    s.append("}");
    s
}

proof fn lemma_join_push(pieces: Seq<Seq<char>>, sep: Seq<char>, last: Seq<char>)
    requires
        pieces.len() > 0,
    ensures
        join(pieces.push(last), sep) == join(pieces, sep) + sep + last,
    decreases pieces.len(),
{
    let all = pieces.push(last);
    assert(all.skip(1) =~= pieces.skip(1).push(last));
    if pieces.len() == 1 {
        assert(all.skip(1) =~= seq![last]);
        assert(join(all.skip(1), sep) == last);
    } else {
        lemma_join_push(pieces.skip(1), sep, last);
        assert(join(all, sep) =~= pieces[0] + sep + (join(pieces.skip(1), sep) + sep + last));
        assert(join(all, sep) =~= join(pieces, sep) + sep + last);
    }
}

/// Writes the whitelist.
pub fn write_list(list: &Whitelist) -> (s: String)
    ensures
        s@ == list_text(list.pairs()),
{
    let mut s = String::new();
    let mut i: usize = 0;
    let ghost all = entry_texts(list.pairs());
    assert(all.take(0) =~= Seq::<Seq<char>>::empty());
    while i < list.len()
        invariant
            i <= list.pairs().len() == all.len(),
            all == entry_texts(list.pairs()),
            s@ == join(all.take(i as int), ","@),
        decreases list.pairs().len() - i,
    {
        if i > 0 {
            s.append(",");
        }
        s.append(write_entry(list.key_at(i), *list.value_at(i)).as_str());
        proof {
            assert(all.take(i + 1) =~= all.take(i as int).push(all[i as int]));
            if i > 0 {
                lemma_join_push(all.take(i as int), ","@, all[i as int]);
            } else {
                assert(s@ =~= all[0]);
            }
        }
        i += 1;
    }
    assert(all.take(i as int) =~= all);
    let mut r = "[".to_owned();
    r.append(s.as_str());
    r.append("]");
    r
}

/// Who does not show the token is told so, whatever else the request says, and changes nothing.
pub proof fn strangers_are_turned_away(
    req: Seq<char>,
    token: Seq<char>,
    page: Seq<char>,
    pairs: Seq<(Seq<char>, Option<u64>)>,
    list: Map<Seq<char>, Option<u64>>,
)
    requires
        !shows_token(req, token),
    ensures
        reply_to(req, token, page, pairs) == ApiReplyView::Answer(
            "HTTP/1.1 401 Unauthorized\r\n\r\n"@,
        ),
        whitelist_after(req, token, list) == list,
{
}

/// The whitelist is written to its file exactly where a request was followed that adds or
/// removes; any other request leaves it as it is.
pub proof fn only_saved_requests_change(
    req: Seq<char>,
    token: Seq<char>,
    page: Seq<char>,
    pairs: Seq<(Seq<char>, Option<u64>)>,
    list: Map<Seq<char>, Option<u64>>,
)
    ensures
        reply_to(req, token, page, pairs) is Saved <==> is_heard(req, token) && id_is_readable(req)
            && ((route(req) == Route::Add && add_params(req) is Some) || (route(req)
            == Route::Remove && json_id(req) is Some)),
        !(reply_to(req, token, page, pairs) is Saved) ==> whitelist_after(req, token, list) == list,
{
}

/// A machine that was added is on the list with the time that was given, and no other entry has
/// changed.
pub proof fn added_is_listed(
    req: Seq<char>,
    token: Seq<char>,
    list: Map<Seq<char>, Option<u64>>,
    id: Seq<char>,
    expire: Option<u64>,
    other: Seq<char>,
)
    requires
        is_heard(req, token),
        id_is_readable(req),
        route(req) == Route::Add,
        add_params(req) == Some((id, expire)),
    ensures
        ({
            let after = whitelist_after(req, token, list);
            &&& after.contains_key(id) && after[id] == expire
            &&& other != id ==> (after.contains_key(other) <==> list.contains_key(other))
            &&& other != id && list.contains_key(other) ==> after[other] == list[other]
        }),
{
}

/// A machine that was removed is not on the list any more, and no other entry has changed.
pub proof fn removed_is_gone(
    req: Seq<char>,
    token: Seq<char>,
    list: Map<Seq<char>, Option<u64>>,
    id: Seq<char>,
    other: Seq<char>,
)
    requires
        is_heard(req, token),
        id_is_readable(req),
        route(req) == Route::Remove,
        json_id(req) == Some(id),
    ensures
        ({
            let after = whitelist_after(req, token, list);
            &&& !after.contains_key(id)
            &&& other != id ==> (after.contains_key(other) <==> list.contains_key(other))
            &&& other != id && list.contains_key(other) ==> after[other] == list[other]
        }),
{
}

/// Removing a machine that was just added gives back the list of before, if the machine was not
/// on it.
pub proof fn remove_undoes_add(
    add: Seq<char>,
    remove: Seq<char>,
    token: Seq<char>,
    list: Map<Seq<char>, Option<u64>>,
    id: Seq<char>,
)
    requires
        is_heard(add, token),
        is_heard(remove, token),
        id_is_readable(add),
        id_is_readable(remove),
        route(add) == Route::Add,
        route(remove) == Route::Remove,
        add_params(add) matches Some(p) && p.0 == id,
        json_id(remove) == Some(id),
        !list.contains_key(id),
    ensures
        whitelist_after(remove, token, whitelist_after(add, token, list)) == list,
{
    assert(whitelist_after(remove, token, whitelist_after(add, token, list)) =~= list);
}

/// Every machine on the list is listed with its time, once.
pub proof fn the_listing_is_complete(list: &Whitelist, id: Seq<char>)
    requires
        list.wf(),
        list@.contains_key(id),
    ensures
        exists|i: int|
            0 <= i < list.pairs().len() && #[trigger] entry_texts(list.pairs())[i] == entry_text(
                id,
                list@[id],
            ) && list.pairs()[i].0 == id && forall|j: int|
                0 <= j < list.pairs().len() && j != i ==> (#[trigger] list.pairs()[j]).0 != id,
{
    list.pairs_are_the_table();
    let i = choose|i: int| 0 <= i < list.pairs().len() && (#[trigger] list.pairs()[i]).0 == id;
    assert(entry_texts(list.pairs())[i] == entry_text(id, list@[id]));
}

/// A machine that was added is shown with its time, once, to who asks for the list next; one that
/// was removed is not shown.
pub proof fn changes_are_shown(
    change: Seq<char>,
    token: Seq<char>,
    list: Map<Seq<char>, Option<u64>>,
    later: &Whitelist,
    show: Seq<char>,
    page: Seq<char>,
)
    requires
        is_heard(change, token),
        id_is_readable(change),
        later.wf(),
        later@ == whitelist_after(change, token, list),
        is_heard(show, token),
        route(show) == Route::List,
    ensures
        reply_to(show, token, page, later.pairs()) == ApiReplyView::Answer(
            "HTTP/1.1 200 OK\r\nContent-Type: application/json\r\n\r\n"@ + list_text(later.pairs()),
        ),
        route(change) == Route::Add ==> (add_params(change) matches Some(p) ==> exists|i: int|
            0 <= i < later.pairs().len() && #[trigger] entry_texts(later.pairs())[i] == entry_text(
                p.0,
                p.1,
            ) && forall|j: int|
                0 <= j < later.pairs().len() && j != i ==> (#[trigger] later.pairs()[j]).0 != p.0),
        route(change) == Route::Remove ==> (json_id(change) matches Some(id) ==> forall|j: int|
            0 <= j < later.pairs().len() ==> (#[trigger] later.pairs()[j]).0 != id),
{
    later.pairs_are_the_table();
    if route(change) == Route::Add {
        if let Some(p) = add_params(change) {
            the_listing_is_complete(later, p.0);
        }
    }
}

/// Where the parts of an entry stand.
proof fn lemma_entry_text(id: Seq<char>, expire: Option<u64>)
    ensures
        ({
            let b = entry_text(id, expire);
            let n = id.len() as int;
            let value = match expire {
                Some(t) => decimal(t as nat),
                None => "null"@,
            };
            &&& b.len() == n + value.len() + 19
            &&& b.subrange(0, 7) == seq!['{', '"', 'i', 'd', '"', ':', '"']
            &&& b.subrange(7, 7 + n) == id
            &&& b.subrange(7 + n, 18 + n) == seq![
                '"',
                ',',
                '"',
                'e',
                'x',
                'p',
                'i',
                'r',
                'e',
                '"',
                ':',
            ]
            &&& b.subrange(18 + n, 18 + n + value.len()) == value
            &&& b[18 + n + value.len()] == '}'
        }),
{
    reveal_strlit("{\"id\":\"");
    reveal_strlit("\",\"expire\":");
    reveal_strlit("}");
    let b = entry_text(id, expire);
    let n = id.len() as int;
    let value = match expire {
        Some(t) => decimal(t as nat),
        None => "null"@,
    };
    assert(b.subrange(0, 7) =~= seq!['{', '"', 'i', 'd', '"', ':', '"']);
    assert(b.subrange(7, 7 + n) =~= id);
    assert(b.subrange(7 + n, 18 + n) =~= seq![
        '"',
        ',',
        '"',
        'e',
        'x',
        'p',
        'i',
        'r',
        'e',
        '"',
        ':',
    ]);
    assert(b.subrange(18 + n, 18 + n + value.len()) =~= value);
}

/// The identifier in an entry is found.
proof fn lemma_entry_id(id: Seq<char>, expire: Option<u64>)
    requires
        !id.contains('"'),
    ensures
        id_in(entry_text(id, expire)) == Some(id),
        id_is_readable_in(entry_text(id, expire)),
{
    reveal_strlit("\"id\"");
    lemma_entry_text(id, expire);
    let b = entry_text(id, expire);
    let n = id.len() as int;
    let head = b.subrange(0, 7);
    let tail = b.subrange(7 + n, 18 + n);
    let quote = seq!['"'];
    let word = "\"id\""@;
    assert forall|i: int| 0 <= i < 7 implies b[i] == head[i] by {}
    assert(b.subrange(1, 5) =~= word);
    if matches_at(b, word, 0) {
        assert(b.subrange(0, 4)[0] == word[0]);
        assert(head[0] == '{');
    }
    lemma_find_from_is(b, word, 0, 1);
    assert(b.subrange(6, 7) =~= quote);
    if matches_at(b, quote, 5) {
        assert(b.subrange(5, 6)[0] == quote[0]);
        assert(head[5] == ':');
    }
    lemma_find_from_is(b, quote, 5, 6);
    assert(b[7 + n] == tail[0]);
    assert(b.subrange(7 + n, 8 + n) =~= quote);
    assert forall|j: int| 7 <= j < 7 + n implies !matches_at(b, quote, j) by {
        if matches_at(b, quote, j) {
            assert(b.subrange(j, j + 1)[0] == quote[0]);
            assert(b.subrange(7, 7 + n)[j - 7] == '"');
            assert(id[j - 7] == '"');
        }
    }
    lemma_find_from_is(b, quote, 7, 7 + n);
}

/// What an entry with this identifier looks like up to its value, character by character.
spec fn is_entry(b: Seq<char>, id: Seq<char>) -> bool {
    let n = id.len() as int;
    &&& b.len() >= 19 + n
    &&& b[0] == '{' && b[1] == '"' && b[2] == 'i' && b[3] == 'd' && b[4] == '"' && b[5] == ':'
        && b[6] == '"'
    &&& forall|i: int| 7 <= i < 7 + n ==> #[trigger] b[i] == id[i - 7]
    &&& b[7 + n] == '"' && b[8 + n] == ',' && b[9 + n] == '"' && b[10 + n] == 'e' && b[11 + n]
        == 'x' && b[12 + n] == 'p' && b[13 + n] == 'i' && b[14 + n] == 'r' && b[15 + n] == 'e'
        && b[16 + n] == '"' && b[17 + n] == ':'
}

proof fn lemma_is_entry(id: Seq<char>, expire: Option<u64>)
    ensures
        is_entry(entry_text(id, expire), id),
{
    lemma_entry_text(id, expire);
    let b = entry_text(id, expire);
    let n = id.len() as int;
    let head = b.subrange(0, 7);
    let tail = b.subrange(7 + n, 18 + n);
    assert forall|i: int| 0 <= i < 7 implies b[i] == head[i] by {}
    assert forall|i: int| 0 <= i < 11 implies b[7 + n + i] == tail[i] by {}
    assert forall|i: int| 7 <= i < 7 + n implies #[trigger] b[i] == id[i - 7] by {
        assert(b.subrange(7, 7 + n)[i - 7] == b[i]);
    }
    assert(b[7 + n + 0] == tail[0] && b[7 + n + 1] == tail[1] && b[7 + n + 2] == tail[2] && b[7 + n
        + 3] == tail[3] && b[7 + n + 4] == tail[4] && b[7 + n + 5] == tail[5] && b[7 + n + 6]
        == tail[6] && b[7 + n + 7] == tail[7] && b[7 + n + 8] == tail[8] && b[7 + n + 9] == tail[9]
        && b[7 + n + 10] == tail[10]);
}

/// Before its proper place `"expire"` can only stand where the identifier does.
proof fn lemma_no_other_place(b: Seq<char>, id: Seq<char>, word: Seq<char>, j: int)
    requires
        is_entry(b, id),
        !id.contains('"'),
        word.len() == 8,
        word[0] == '"',
        word[1] == 'e',
        0 <= j < 9 + id.len(),
        matches_at(b, word, j),
    ensures
        j == 6,
{
    let n = id.len() as int;
    let w = b.subrange(j, j + 8);
    assert(b[j] == w[0]);
    assert(b[j + 1] == w[1]);
    if 7 <= j < 7 + n {
        assert(id[j - 7] == '"');
    }
}

/// Where the identifier reads `"expire"`, it is just that long.
proof fn lemma_expire_as_id(b: Seq<char>, id: Seq<char>, word: Seq<char>)
    requires
        is_entry(b, id),
        !id.contains('"'),
        word == seq!['"', 'e', 'x', 'p', 'i', 'r', 'e', '"'],
        matches_at(b, word, 6),
    ensures
        id.len() == 6,
{
    let n = id.len() as int;
    let w = b.subrange(6, 14);
    assert(b[13] == w[7]);
    if n < 6 {
        assert(b[7 + n] == w[1 + n]);
    } else if n > 6 {
        assert(id[6] == '"');
    }
}

/// Where `"expire"` is met first in an entry, and what follows it up to the value.
proof fn lemma_entry_expire_at(id: Seq<char>, expire: Option<u64>) -> (at: int)
    requires
        !id.contains('"'),
    ensures
        find(entry_text(id, expire), "\"expire\""@) == Some(at),
        8 + id.len() <= at + 8 < 18 + id.len(),
        forall|i: int|
            at + 8 <= i < 18 + id.len() ==> !is_digit(#[trigger] entry_text(id, expire)[i]),
{
    reveal_strlit("\"expire\"");
    lemma_is_entry(id, expire);
    let b = entry_text(id, expire);
    let n = id.len() as int;
    let word = "\"expire\""@;
    assert(word =~= seq!['"', 'e', 'x', 'p', 'i', 'r', 'e', '"']);
    assert(b.subrange(9 + n, 17 + n) =~= word);
    assert forall|j: int| 0 <= j < 9 + n && j != 6 implies !matches_at(b, word, j) by {
        if matches_at(b, word, j) {
            lemma_no_other_place(b, id, word, j);
        }
    }
    if matches_at(b, word, 6) {
        lemma_expire_as_id(b, id, word);
        lemma_find_from_is(b, word, 0, 6);
        6
    } else {
        lemma_find_from_is(b, word, 0, 9 + n);
        9 + n
    }
}

/// The time in an entry is found, unless it is zero.
proof fn lemma_entry_expire(id: Seq<char>, expire: Option<u64>)
    requires
        !id.contains('"'),
        expire != Some(0u64),
    ensures
        expire_in(entry_text(id, expire)) == Some(expire),
{
    reveal_strlit("null");
    lemma_entry_text(id, expire);
    let b = entry_text(id, expire);
    let n = id.len() as int;
    let from = lemma_entry_expire_at(id, expire) + 8;
    match expire {
        Some(t) => {
            let value = decimal(t as nat);
            let end = 18 + n + value.len();
            decimal_is_digits(t as nat);
            assert forall|i: int| 18 + n <= i < end implies is_digit(#[trigger] b[i]) by {
                assert(b.subrange(18 + n, end)[i - 18 - n] == b[i]);
                assert(is_digit(value[i - 18 - n]));
            }
            lemma_find_digit_is(b, true, from, 18 + n);
            lemma_find_digit_is(b, false, 18 + n, end);
            assert(b.subrange(18 + n, end) =~= value);
            read_back(t as nat, u64::MAX as nat);
        },
        None => {
            let value = "null"@;
            let end = 18 + n + 4;
            assert forall|i: int| from <= i < b.len() implies !is_digit(#[trigger] b[i]) by {
                if 18 + n <= i < end {
                    assert(b.subrange(18 + n, end)[i - 18 - n] == b[i]);
                }
            }
            lemma_find_digit_none(b, true, from);
            lemma_find_digit_is(b, false, from, from);
            assert(b.subrange(from, from) =~= Seq::<char>::empty());
        },
    }
}

/// What the listing says of a machine is what adding it takes in: an entry of the listing, sent
/// as the body of a request, names the same machine and the same time. The identifier must not
/// hold a quote, the time must not be zero, and the request must have no other empty line.
pub proof fn a_listed_entry_can_be_added(head: Seq<char>, id: Seq<char>, expire: Option<u64>)
    requires
        !id.contains('"'),
        expire != Some(0u64),
        find(head + "\r\n\r\n"@, "\r\n\r\n"@) == Some(head.len() as int),
        find(entry_text(id, expire), "\r\n\r\n"@) is None,
    ensures
        ({
            let req = head + "\r\n\r\n"@ + entry_text(id, expire);
            &&& id_is_readable(req)
            &&& json_id(req) == Some(id)
            &&& add_params(req) == Some((id, expire))
        }),
{
    body_is_read(head, entry_text(id, expire));
    lemma_entry_id(id, expire);
    lemma_entry_expire(id, expire);
}

/// A request is routed by its method and its path alone. The page is what is got at `/`, the list
/// what is got at `/api/list`; machines are added by posting to `/api/add` and removed by posting to
/// `/api/remove`; nothing else is known. A query behind the path does not matter.
pub proof fn requests_are_routed(
    method: Seq<char>,
    place: Seq<char>,
    query: Seq<char>,
    version: Seq<char>,
    after: Seq<char>,
)
    requires
        !method.contains(' ') && !method.contains('\n'),
        !place.contains(' ') && !place.contains('\n') && !place.contains('?'),
        query.len() > 0 ==> query[0] == '?' && !query.contains(' ') && !query.contains('\n'),
        !version.contains('\n'),
    ensures
        ({
            let req = method.push(' ') + (place + query).push(' ') + version + "\r\n"@ + after;
            &&& parts(req).len() > 1
            &&& route(req) == Route::Page <==> method == "GET"@ && place == "/"@
            &&& route(req) == Route::List <==> method == "GET"@ && place == "/api/list"@
            &&& route(req) == Route::Add <==> method == "POST"@ && place == "/api/add"@
            &&& route(req) == Route::Remove <==> method == "POST"@ && place == "/api/remove"@
        }),
{
    let asked = place + query;
    assert forall|c: char| c == ' ' || c == '\n' implies !asked.contains(c) by {
        if asked.contains(c) {
            let i = choose|i: int| 0 <= i < asked.len() && asked[i] == c;
            if i < place.len() {
                assert(place[i] == c);
            } else {
                assert(query[i - place.len()] == c);
            }
        }
    }
    let req = method.push(' ') + asked.push(' ') + version + "\r\n"@ + after;
    the_first_line_is_read(method, asked, version, after);
    if query.len() > 0 {
        assert(asked =~= place.push('?') + query.skip(1));
        the_query_is_left_out(req, place, query.skip(1));
    } else {
        assert(asked =~= place);
        the_query_is_left_out(req, place, query);
    }
    lemma_routes();
}

/// The words by which requests are routed differ.
proof fn lemma_routes()
    ensures
        "GET"@ != "POST"@,
        "/"@ != "/api/list"@,
        "/api/add"@ != "/api/remove"@,
{
    reveal_strlit("GET");
    reveal_strlit("POST");
    reveal_strlit("/");
    reveal_strlit("/api/list");
    reveal_strlit("/api/add");
    reveal_strlit("/api/remove");
    assert("GET"@.len() != "POST"@.len());
    assert("/"@.len() != "/api/list"@.len());
    assert("/api/add"@.len() != "/api/remove"@.len());
}

/// What is sent back to who shows the token: the page and the list with status 200, the same status
/// for a change that was made, 400 for one that could not be read, and 404 for anything else. A body
/// that breaks off is not answered, and neither is a first line of one part.
pub proof fn answers_are_right(
    req: Seq<char>,
    token: Seq<char>,
    page: Seq<char>,
    pairs: Seq<(Seq<char>, Option<u64>)>,
)
    requires
        shows_token(req, token),
    ensures
        ({
            let reply = reply_to(req, token, page, pairs);
            let bad = ApiReplyView::Answer("HTTP/1.1 400 Bad Request\r\n\r\n"@);
            let done = ApiReplyView::Saved("HTTP/1.1 200 OK\r\n\r\nok"@);
            let changes = route(req) == Route::Add || route(req) == Route::Remove;
            let heard = parts(req).len() > 1;
            &&& reply is Close <==> !heard
            &&& reply is Abort <==> heard && changes && !id_is_readable(req)
            &&& heard && route(req) == Route::Page ==> reply == ApiReplyView::Answer(
                "HTTP/1.1 200 OK\r\nContent-Type: text/html; charset=utf-8\r\n\r\n"@ + page,
            )
            &&& heard && route(req) == Route::List ==> (reply matches ApiReplyView::Answer(t) && t
                == "HTTP/1.1 200 OK\r\nContent-Type: application/json\r\n\r\n"@ + list_text(pairs))
            &&& heard && route(req) == Route::Unknown ==> reply == ApiReplyView::Answer(
                "HTTP/1.1 404 Not Found\r\n\r\n"@,
            )
            &&& heard && route(req) == Route::Add && id_is_readable(req) ==> reply == (if add_params(
                req,
            ) is Some {
                done
            } else {
                bad
            })
            &&& heard && route(req) == Route::Remove && id_is_readable(req) ==> reply
                == (if json_id(req) is Some {
                done
            } else {
                bad
            })
        }),
{
}

/// An empty list is two brackets; one entry stands between them, and each further one behind a
/// comma.
pub proof fn the_list_grows_by_an_entry(
    pairs: Seq<(Seq<char>, Option<u64>)>,
    id: Seq<char>,
    expire: Option<u64>,
)
    ensures
        list_text(seq![]) == "["@ + "]"@,
        list_text(seq![(id, expire)]) == "["@ + entry_text(id, expire) + "]"@,
        pairs.len() > 0 ==> list_text(pairs.push((id, expire))) == list_text(pairs).drop_last() + ","@
            + entry_text(id, expire) + "]"@,
{
    reveal_strlit("]");
    let none = Seq::<(Seq<char>, Option<u64>)>::empty();
    assert(entry_texts(none) =~= Seq::<Seq<char>>::empty());
    assert(list_text(none) =~= "["@ + "]"@);
    let one = seq![(id, expire)];
    assert(entry_texts(one) =~= seq![entry_text(id, expire)]);
    if pairs.len() > 0 {
        let last = entry_text(id, expire);
        let all = pairs.push((id, expire));
        assert(entry_texts(all) =~= entry_texts(pairs).push(last));
        lemma_join_push(entry_texts(pairs), ","@, last);
        let inner = join(entry_texts(pairs), ","@);
        assert(list_text(pairs).drop_last() =~= "["@ + inner);
        assert("["@ + (inner + ","@ + last) + "]"@ =~= "["@ + inner + ","@ + last + "]"@);
    }
}

/// A change that is answered as made is made, whatever the list was: what was posted to be added is
/// then in the list, in place of what stood under that name, and what was posted to be removed is
/// not.
pub proof fn what_is_saved_is_changed(
    req: Seq<char>,
    token: Seq<char>,
    page: Seq<char>,
    pairs: Seq<(Seq<char>, Option<u64>)>,
    list: Map<Seq<char>, Option<u64>>,
)
    requires
        reply_to(req, token, page, pairs) is Saved,
    ensures
        shows_token(req, token),
        route(req) == Route::Add || route(req) == Route::Remove,
        route(req) == Route::Add ==> (add_params(req) matches Some(p) && whitelist_after(
            req,
            token,
            list,
        ) == list.insert(p.0, p.1)),
        route(req) == Route::Remove ==> (json_id(req) matches Some(id) && whitelist_after(
            req,
            token,
            list,
        ) == list.remove(id)),
{
}

} // verus!

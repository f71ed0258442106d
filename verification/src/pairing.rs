//! Who is let in, and how two connections that ask for the same relay find each other.
use vstd::prelude::*;
use vstd::string::*;

use crate::console::{Control, ControlView};
use crate::encoding::{header_text, read_header};
use crate::number::{decimal, print_number};
use crate::table::{TextMap, TextSet};
use crate::text::{chars_of, same};
use crate::usage::Usage;

verus! {

/// What a new connection is used for.
#[derive(Clone, Copy, Debug, PartialEq, Eq, Structural)]
pub enum Entry {
    /// For one command.
    Console,
    /// For nothing.
    Refused,
    /// For relaying.
    Relay,
}

/// What a new connection is used for. `ws` says whether it came in on the port for web sockets.
pub open spec fn entry(
    ws: bool,
    loopback: bool,
    ip: Seq<char>,
    blocklist: Set<Seq<char>>,
) -> Entry {
    if !ws && loopback {
        Entry::Console
    } else if blocklist.contains(ip) {
        Entry::Refused
    } else {
        Entry::Relay
    }
}

/// Decides what a new connection is used for.
pub fn let_in(ws: bool, loopback: bool, ip: &str, blocklist: &TextSet) -> (e: Entry)
    ensures
        e == entry(ws, loopback, ip@, blocklist@),
        e is Console <==> !ws && loopback,
        e is Refused <==> (ws || !loopback) && blocklist@.contains(ip@),
        e is Relay <==> (ws || !loopback) && !blocklist@.contains(ip@),
{
    if !ws && loopback {
        Entry::Console
    } else if blocklist.contains(ip) {
        Entry::Refused
    } else {
        Entry::Relay
    }
}

/// The address that a proxy names: that of `X-Real-IP` if there is such a header, and of
/// `X-Forwarded-For` otherwise. There is none where that header is no text.
pub open spec fn real_ip(named: Option<Seq<u8>>, forwarded: Option<Seq<u8>>) -> Option<Seq<char>> {
    match named {
        Some(bytes) => header_text(bytes),
        None => match forwarded {
            Some(bytes) => header_text(bytes),
            None => None,
        },
    }
}

/// An address with a port: one without a dot stands in brackets.
pub open spec fn socket_text(ip: Seq<char>) -> Seq<char> {
    if ip.contains('.') {
        ip + ":0"@
    } else {
        "["@ + ip + "]:0"@
    }
}

/// The bytes of a header, as contracts speak of them.
pub open spec fn header_bytes(header: Option<&[u8]>) -> Option<Seq<u8>> {
    match header {
        Some(bytes) => Some(bytes@),
        None => None,
    }
}

/// The address that a proxy names, written with a port.
pub fn real_address(named: Option<&[u8]>, forwarded: Option<&[u8]>) -> (r: Option<String>)
    ensures
        match real_ip(header_bytes(named), header_bytes(forwarded)) {
            Some(ip) => r matches Some(s) && s@ == socket_text(ip),
            None => r is None,
        },
{
    let header = match named {
        Some(bytes) => read_header(bytes),
        None => match forwarded {
            Some(bytes) => read_header(bytes),
            None => None,
        },
    };
    match header {
        Some(ip) => Some(write_socket(ip.as_str())),
        None => None,
    }
}

/// Writes an address with a port.
pub fn write_socket(ip: &str) -> (s: String)
    ensures
        s@ == socket_text(ip@),
{
    let cs = chars_of(ip);
    let mut i: usize = 0;
    while i < cs.len()
        invariant
            i <= cs@.len(),
            cs@ == ip@,
            forall|j: int| 0 <= j < i ==> cs@[j] != '.',
        decreases cs@.len() - i,
    {
        if cs[i] == '.' {
            assert(ip@[i as int] == '.');
            let mut s = ip.to_owned();
            s.append(":0");
            return s;
        }
        i += 1;
    }
    let mut s = "[".to_owned();
    s.append(ip);
    s.append("]:0");
    s
}

/// The name under which the usage of a connection is kept.
pub open spec fn id_text(ip: Seq<char>, port: u16) -> Seq<char> {
    ip + ":"@ + decimal(port as nat)
}

/// The name under which the usage of a connection is kept.
pub fn connection_id(ip: &str, port: u16) -> (s: String)
    ensures
        s@ == id_text(ip@, port),
{
    let mut s = ip.to_owned();
    s.append(":");
    s.append(print_number(port as u64).as_str());
    s
}

/// The parts of a request for a relay that matter here.
pub struct RelayRequest {
    /// The key that the other side knows.
    pub licence_key: String,
    /// The machine that is to be reached.
    pub id: String,
    /// What both sides of a relay have in common.
    pub uuid: String,
}

/// The parts of a request, as contracts speak of them.
pub struct RelayRequestView {
    pub licence_key: Seq<char>,
    pub id: Seq<char>,
    pub uuid: Seq<char>,
}

impl View for RelayRequest {
    type V = RelayRequestView;

    open spec fn view(&self) -> RelayRequestView {
        RelayRequestView { licence_key: self.licence_key@, id: self.id@, uuid: self.uuid@ }
    }
}

/// Why a request is not followed.
#[derive(Clone, Copy, Debug, PartialEq, Eq, Structural)]
pub enum Refusal {
    /// It does not have the key of the server.
    WrongKey,
    /// The machine is not on the whitelist.
    NotListed,
    /// It does not say what the two sides have in common.
    NoUuid,
}

/// Why a request is not followed, if it is not. A server without a key asks for none, and one
/// without a whitelist file lets every machine be reached. `listed` says whether the machine is
/// on the whitelist at present.
pub open spec fn refusal(
    request: RelayRequestView,
    key: Seq<char>,
    whitelist_file: Seq<char>,
    listed: bool,
) -> Option<Refusal> {
    if key.len() > 0 && request.licence_key != key {
        Some(Refusal::WrongKey)
    } else if whitelist_file.len() > 0 && request.id.len() > 0 && !listed {
        Some(Refusal::NotListed)
    } else if request.uuid.len() == 0 {
        Some(Refusal::NoUuid)
    } else {
        None
    }
}

/// What becomes of a request.
pub enum Outcome<T> {
    /// It is not followed.
    Refused(Refusal),
    /// The other side was waiting: the two are relayed to each other.
    Paired { stream: T, peer: T },
    /// The connection waits for the other side.
    Waiting,
}

/// What becomes of a request, with the connections that are waiting.
pub open spec fn outcome<T>(
    waiting: Map<Seq<char>, T>,
    refusal: Option<Refusal>,
    uuid: Seq<char>,
    stream: T,
) -> Outcome<T> {
    match refusal {
        Some(why) => Outcome::Refused(why),
        None => if waiting.contains_key(uuid) {
            Outcome::Paired { stream, peer: waiting[uuid] }
        } else {
            Outcome::Waiting
        },
    }
}

/// The connections that are waiting after a request.
pub open spec fn waiting_after<T>(
    waiting: Map<Seq<char>, T>,
    refusal: Option<Refusal>,
    uuid: Seq<char>,
    stream: T,
) -> Map<Seq<char>, T> {
    match refusal {
        Some(_) => waiting,
        None => if waiting.contains_key(uuid) {
            waiting.remove(uuid)
        } else {
            waiting.insert(uuid, stream)
        },
    }
}

/// Decides whether a request is followed.
pub fn examine(request: &RelayRequest, key: &str, whitelist_file: &str, listed: bool) -> (r: Option<
    Refusal,
>)
    ensures
        r == refusal(request@, key@, whitelist_file@, listed),
{
    if !key.is_empty() && !same(request.licence_key.as_str(), key) {
        Some(Refusal::WrongKey)
    } else if !whitelist_file.is_empty() && !request.id.as_str().is_empty() && !listed {
        Some(Refusal::NotListed)
    } else if request.uuid.as_str().is_empty() {
        Some(Refusal::NoUuid)
    } else {
        None
    }
}

/// Follows a request: pairs the connection with the one that waits for it, or lets it wait.
pub fn request_relay<T>(
    waiting: &mut TextMap<T>,
    request: &RelayRequest,
    key: &str,
    whitelist_file: &str,
    listed: bool,
    stream: T,
) -> (r: Outcome<T>)
    requires
        old(waiting).wf(),
    ensures
        final(waiting).wf(),
        r == outcome(
            old(waiting)@,
            refusal(request@, key@, whitelist_file@, listed),
            request@.uuid,
            stream,
        ),
        final(waiting)@ == waiting_after(
            old(waiting)@,
            refusal(request@, key@, whitelist_file@, listed),
            request@.uuid,
            stream,
        ),
{
    match examine(request, key, whitelist_file, listed) {
        Some(why) => Outcome::Refused(why),
        None => match waiting.remove(request.uuid.as_str()) {
            Some(peer) => Outcome::Paired { stream, peer },
            None => {
                assert(waiting@ =~= old(waiting)@);
                waiting.insert(request.uuid.clone(), stream);
                Outcome::Waiting
            },
        },
    }
}

/// Ends the waiting under this name, whoever waits there.
pub fn give_up<T>(waiting: &mut TextMap<T>, uuid: &str) -> (r: Option<T>)
    requires
        old(waiting).wf(),
    ensures
        final(waiting).wf(),
        final(waiting)@ == old(waiting)@.remove(uuid@),
        match r {
            Some(stream) => old(waiting)@.contains_key(uuid@) && stream == old(waiting)@[uuid@],
            None => !old(waiting)@.contains_key(uuid@),
        },
{
    waiting.remove(uuid)
}

/// Whether two connections hand bytes on without looking at them: only where none is a web
/// socket.
pub fn both_raw(stream_is_ws: bool, peer_is_ws: bool) -> (r: bool)
    ensures
        r == (!stream_is_ws && !peer_is_ws),
{
    !stream_is_ws && !peer_is_ws
}

/// Starts to keep the usage of a connection.
pub fn open_usage(control: &mut Control, id: &str)
    requires
        old(control).wf(),
    ensures
        final(control).wf(),
        final(control)@ == old(control)@.with_usage(
            id@,
            Usage { elapsed: 0, total: 0, highest: 0, speed: 0 },
        ),
{
    control.usage.insert(id.to_owned(), Usage::none());
}

/// Ends keeping the usage of a connection.
pub fn close_usage(control: &mut Control, id: &str)
    requires
        old(control).wf(),
    ensures
        final(control).wf(),
        final(control)@ == old(control)@.without_usage(id@),
{
    let _ = control.usage.remove(id);
}

/// A message of a web socket.
pub enum WsMessage {
    Binary(Vec<u8>),
    Other,
}

/// What was received from a web socket, as bytes: those of a binary message; any other message
/// counts as received, but has none. The end and an error stay what they are.
pub fn ws_bytes(message: Option<Result<WsMessage, String>>) -> (r: Option<
    Result<Vec<u8>, String>,
>)
    ensures
        match message {
            Some(Ok(WsMessage::Binary(bytes))) => r == Some(Ok::<Vec<u8>, String>(bytes)),
            Some(Ok(WsMessage::Other)) => r matches Some(Ok(bytes)) && bytes@ == Seq::<u8>::empty(),
            Some(Err(why)) => r == Some(Err::<Vec<u8>, String>(why)),
            None => r is None,
        },
{
    match message {
        Some(Ok(WsMessage::Binary(bytes))) => Some(Ok(bytes)),
        Some(Ok(WsMessage::Other)) => Some(Ok(Vec::new())),
        Some(Err(why)) => Some(Err(why)),
        None => None,
    }
}

/// Of two requests with the same name that are followed, the first waits, the second is paired
/// with the first, and nobody waits under that name afterwards; all others still wait.
pub proof fn the_second_meets_the_first<T>(
    waiting: Map<Seq<char>, T>,
    uuid: Seq<char>,
    first: T,
    second: T,
)
    requires
        !waiting.contains_key(uuid),
    ensures
        outcome(waiting, None, uuid, first) == Outcome::<T>::Waiting,
        ({
            let between = waiting_after(waiting, None, uuid, first);
            &&& outcome(between, None, uuid, second) == (Outcome::Paired {
                stream: second,
                peer: first,
            })
            &&& waiting_after(between, None, uuid, second) == waiting
        }),
{
    let between = waiting_after(waiting, None, uuid, first);
    assert(between.remove(uuid) =~= waiting);
}

/// A request that is refused changes nothing and is not paired, and a request under one name
/// does not touch who waits under another.
pub proof fn requests_stay_apart<T>(
    waiting: Map<Seq<char>, T>,
    why: Option<Refusal>,
    uuid: Seq<char>,
    other: Seq<char>,
    stream: T,
)
    ensures
        why is Some ==> waiting_after(waiting, why, uuid, stream) == waiting && outcome(
            waiting,
            why,
            uuid,
            stream,
        ) == Outcome::<T>::Refused(why->0),
        other != uuid ==> (waiting_after(waiting, why, uuid, stream).contains_key(other)
            <==> waiting.contains_key(other)),
        other != uuid && waiting.contains_key(other) ==> waiting_after(waiting, why, uuid, stream)[
            other
        ] == waiting[other],
{
}

/// Who has given up waiting is not met by a later request: that one waits in turn.
pub proof fn nobody_meets_who_gave_up<T>(
    waiting: Map<Seq<char>, T>,
    uuid: Seq<char>,
    first: T,
    second: T,
)
    requires
        !waiting.contains_key(uuid),
    ensures
        ({
            let after = waiting_after(waiting, None, uuid, first).remove(uuid);
            &&& after == waiting
            &&& outcome(after, None, uuid, second) == Outcome::<T>::Waiting
        }),
{
    assert(waiting_after(waiting, None, uuid, first).remove(uuid) =~= waiting);
}

/// A server with a key follows no request with another one, whatever else the request says.
pub proof fn the_key_is_asked_for(
    request: RelayRequestView,
    key: Seq<char>,
    whitelist_file: Seq<char>,
    listed: bool,
)
    requires
        key.len() > 0,
    ensures
        refusal(request, key, whitelist_file, listed) is None ==> request.licence_key == key,
        request.licence_key != key ==> refusal(request, key, whitelist_file, listed) == Some(
            Refusal::WrongKey,
        ),
{
}

/// A server with a whitelist file follows no request for a machine that is not listed.
pub proof fn the_whitelist_is_asked(
    request: RelayRequestView,
    key: Seq<char>,
    whitelist_file: Seq<char>,
)
    requires
        whitelist_file.len() > 0,
        request.id.len() > 0,
    ensures
        refusal(request, key, whitelist_file, false) is Some,
{
}

/// What the server is controlled by after some reports on a connection.
pub open spec fn after_reports(c: ControlView, id: Seq<char>, reports: Seq<Usage>) -> ControlView
    decreases reports.len(),
{
    if reports.len() == 0 {
        c
    } else {
        after_reports(c, id, reports.drop_last()).with_usage(id, reports.last())
    }
}

/// While a pair is relayed, its usage is that of the last report on it. When it is over, the
/// server is controlled by what it was before, if the connection was not in the usage table then.
pub proof fn usage_is_kept_while_relaying(
    c: ControlView,
    id: Seq<char>,
    first: Usage,
    reports: Seq<Usage>,
)
    ensures
        ({
            let after = after_reports(c.with_usage(id, first), id, reports);
            &&& after.usage.contains_key(id)
            &&& after.usage[id] == (if reports.len() == 0 {
                first
            } else {
                reports.last()
            })
            &&& !c.usage.contains_key(id) ==> after.without_usage(id) == c
        }),
    decreases reports.len(),
{
    let after = after_reports(c.with_usage(id, first), id, reports);
    if reports.len() > 0 {
        usage_is_kept_while_relaying(c, id, first, reports.drop_last());
        let before = after_reports(c.with_usage(id, first), id, reports.drop_last());
        assert(after.usage.remove(id) =~= before.usage.remove(id));
    } else {
        assert(c.usage.contains_key(id) || after.usage.remove(id) =~= c.usage);
    }
}

/// A connection takes a command exactly where it comes to the plain port from the loopback
/// interface. Any other one, on either port, is refused exactly where its address is on the
/// blocklist, and is relayed exactly where it is not.
pub proof fn only_the_blocklist_refuses(
    ws: bool,
    loopback: bool,
    ip: Seq<char>,
    blocklist: Set<Seq<char>>,
)
    ensures
        entry(ws, loopback, ip, blocklist) is Console <==> !ws && loopback,
        ws || !loopback ==> (entry(ws, loopback, ip, blocklist) is Refused <==> blocklist.contains(
            ip,
        )),
        ws || !loopback ==> (entry(ws, loopback, ip, blocklist) is Relay <==> !blocklist.contains(
            ip,
        )),
{
}

/// Where a connection is let in to be relayed does not depend on the port that it came to, and not
/// on what the blocklist says of other addresses.
pub proof fn ports_and_other_addresses_do_not_matter(
    ip: Seq<char>,
    other: Seq<char>,
    blocklist: Set<Seq<char>>,
)
    ensures
        entry(true, false, ip, blocklist) == entry(false, false, ip, blocklist),
        entry(true, true, ip, blocklist) == entry(true, false, ip, blocklist),
        other != ip ==> entry(true, false, ip, blocklist.insert(other)) == entry(
            true,
            false,
            ip,
            blocklist,
        ),
        other != ip ==> entry(true, false, ip, blocklist.remove(other)) == entry(
            true,
            false,
            ip,
            blocklist,
        ),
        entry(true, false, ip, blocklist.insert(ip)) is Refused,
        entry(false, false, ip, blocklist.insert(ip)) is Refused,
        entry(true, false, ip, blocklist.remove(ip)) is Relay,
        entry(false, false, ip, blocklist.remove(ip)) is Relay,
{
}

/// A request is followed exactly where it has the key, if there is one, the machine is listed, if
/// there is a whitelist and a machine is named, and it says what the two sides have in common. Of
/// more than one thing that is wrong with it, the first of these is what it is refused for.
pub proof fn who_is_followed(
    request: RelayRequestView,
    key: Seq<char>,
    whitelist_file: Seq<char>,
    listed: bool,
)
    ensures
        ({
            let knows = key.len() == 0 || request.licence_key == key;
            let allowed = whitelist_file.len() == 0 || request.id.len() == 0 || listed;
            let why = refusal(request, key, whitelist_file, listed);
            &&& why is None <==> knows && allowed && request.uuid.len() > 0
            &&& why == Some(Refusal::WrongKey) <==> !knows
            &&& why == Some(Refusal::NotListed) <==> knows && !allowed
            &&& why == Some(Refusal::NoUuid) <==> knows && allowed && request.uuid.len() == 0
        }),
{
}

/// Where a server has no key, what key a request has does not matter; where it has no whitelist
/// file, or a request names no machine, the whitelist does not matter.
pub proof fn what_does_not_matter(
    request: RelayRequestView,
    other: Seq<char>,
    key: Seq<char>,
    whitelist_file: Seq<char>,
    listed: bool,
)
    ensures
        refusal(request, Seq::empty(), whitelist_file, listed) == refusal(
            RelayRequestView { licence_key: other, ..request },
            Seq::empty(),
            whitelist_file,
            listed,
        ),
        refusal(request, key, Seq::empty(), true) == refusal(request, key, Seq::empty(), false),
        refusal(RelayRequestView { id: Seq::empty(), ..request }, key, whitelist_file, true)
            == refusal(
            RelayRequestView { id: Seq::empty(), ..request },
            key,
            whitelist_file,
            false,
        ),
        refusal(request, key, whitelist_file, true) == refusal(
            RelayRequestView { id: other, ..request },
            key,
            whitelist_file,
            true,
        ),
{
}

/// A request that is followed is paired with who waits under its name, whoever that is, and who
/// waited does so no longer; if nobody waits there, the connection waits itself.
pub proof fn who_waits_is_met<T>(waiting: Map<Seq<char>, T>, uuid: Seq<char>, stream: T)
    ensures
        waiting.contains_key(uuid) ==> outcome(waiting, None, uuid, stream) == (Outcome::Paired {
            stream,
            peer: waiting[uuid],
        }) && !waiting_after(waiting, None, uuid, stream).contains_key(uuid),
        !waiting.contains_key(uuid) ==> outcome(waiting, None, uuid, stream) == Outcome::<
            T,
        >::Waiting && waiting_after(waiting, None, uuid, stream).contains_key(uuid)
            && waiting_after(waiting, None, uuid, stream)[uuid] == stream,
{
}

/// Where there is a header `X-Real-IP`, the other one does not matter, also where the first is no
/// text; where there is none, the other one is read; where there is neither, no address is named.
pub proof fn the_first_header_counts(
    named: Seq<u8>,
    forwarded: Option<Seq<u8>>,
    bytes: Seq<u8>,
)
    ensures
        real_ip(Some(named), forwarded) == header_text(named),
        real_ip(None, Some(bytes)) == header_text(bytes),
        real_ip(None, None) is None,
{
}

/// An address is written as it is, with port zero behind it, and in brackets exactly where it has
/// no dot.
pub proof fn a_socket_names_its_address(ip: Seq<char>)
    ensures
        ({
            let s = socket_text(ip);
            let n = ip.len() as int;
            &&& s.len() >= n + 2 && s[s.len() - 2] == ':' && s[s.len() - 1] == '0'
            &&& ip.contains('.') ==> s.len() == n + 2 && s.take(n) == ip
            &&& !ip.contains('.') ==> s.len() == n + 4 && s[0] == '[' && s.subrange(1, n + 1) == ip
                && s[n + 1] == ']'
        }),
{
    reveal_strlit(":0");
    reveal_strlit("[");
    reveal_strlit("]:0");
    let s = socket_text(ip);
    let n = ip.len() as int;
    if ip.contains('.') {
        assert(s.take(n) =~= ip);
        assert(s[n] == ":0"@[0] && s[n + 1] == ":0"@[1]);
    } else {
        assert(s.subrange(1, n + 1) =~= ip);
        assert(s[n + 1] == "]:0"@[0] && s[n + 2] == "]:0"@[1] && s[n + 3] == "]:0"@[2]);
    }
}

/// Two connections have the same name only where address and port are the same, and the name is
/// the address, a colon and the port.
pub proof fn names_differ(a: Seq<char>, p: u16, b: Seq<char>, q: u16)
    ensures
        id_text(a, p) == id_text(b, q) ==> a == b && p == q,
        id_text(a, p).take(a.len() as int) == a,
        id_text(a, p)[a.len() as int] == ':',
        crate::number::number(id_text(a, p).skip(a.len() as int + 1), 65535) == Ok::<
            nat,
            crate::number::NumberError,
        >(p as nat),
{
    reveal_strlit(":");
    let s = id_text(a, p);
    let m = a.len() as int;
    assert(s.take(m) =~= a);
    assert(s.skip(m + 1) =~= decimal(p as nat));
    crate::number::read_back(p as nat, 65535);
    crate::number::read_back(q as nat, 65535);
    if s == id_text(b, q) {
        let n = b.len() as int;
        crate::number::decimal_is_digits(p as nat);
        crate::number::decimal_is_digits(q as nat);
        assert(id_text(b, q).skip(n + 1) =~= decimal(q as nat));
        assert(id_text(b, q)[n] == ':');
        if m < n {
            assert(decimal(p as nat)[n - m - 1] == s[n]);
            assert(crate::number::is_digit(decimal(p as nat)[n - m - 1]));
        }
        if n < m {
            assert(decimal(q as nat)[m - n - 1] == s[m]);
            assert(crate::number::is_digit(decimal(q as nat)[m - n - 1]));
        }
        assert(id_text(b, q).take(n) =~= b);
    }
}

} // verus!

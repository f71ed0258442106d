//! What is read when the server starts.
use vstd::prelude::*;

use crate::console::{lemma_take_to_set, Control, ControlView};
use crate::key::{chosen_key, get_server_sk, public_key_text, ServerKey};
use crate::number::{number, parse_number, NumberError};
use crate::table::TextSet;
use crate::text::{
    find, is_white_space, lemma_find_from, lemma_trim_end, split_at_char, split_of_free,
    split_of_sum, split_on, split_pieces_are_free, texts, trim, trim_of_padded, trim_start, trimmed,
};

verus! {

/// The port of the whitelist interface where none is named.
pub const API_PORT: u16 = 21114;

/// The address on one line of a list file: what stands before the first blank.
pub open spec fn line_address(line: Seq<char>) -> Seq<char> {
    split_on(trim(line), ' ')[0]
}

/// The addresses in a list file. An empty line names the empty address.
pub open spec fn file_addresses(contents: Seq<char>) -> Seq<Seq<char>> {
    split_on(contents, '\n').map_values(|line: Seq<char>| line_address(line))
}

/// Puts the addresses in a list file into a list.
pub fn load_list(list: &mut TextSet, contents: &str)
    requires
        old(list).wf(),
    ensures
        final(list).wf(),
        final(list)@ == old(list)@.union(file_addresses(contents@).to_set()),
{
    let rows = split_at_char(contents, '\n');
    let ghost all = file_addresses(contents@);
    let ghost before = list@;
    let mut i: usize = 0;
    assert(all.take(0) =~= Seq::<Seq<char>>::empty());
    assert(list@ =~= before.union(all.take(0).to_set()));
    while i < rows.len()
        invariant
            i <= rows@.len() == all.len(),
            texts(rows@) == split_on(contents@, '\n'),
            all == file_addresses(contents@),
            list.wf(),
            list@ == before.union(all.take(i as int).to_set()),
        decreases rows@.len() - i,
    {
        let words = split_at_char(trimmed(rows[i].as_str()).as_str(), ' ');
        proof {
            assert(split_on(contents@, '\n')[i as int] == rows@[i as int]@);
            assert(split_on(trim(rows@[i as int]@), ' ')[0] == words@[0]@);
            lemma_take_to_set(all, i as int);
        }
        list.insert(words[0].clone());
        assert(list@ =~= before.union(all.take(i + 1).to_set()));
        i += 1;
    }
    assert(all.take(i as int) =~= all);
}

/// Why there are no ports to listen on.
#[derive(Clone, Copy, Debug, PartialEq, Eq, Structural)]
pub enum PortError {
    /// The text does not name a port.
    NotAPort(NumberError),
    /// There is no port two above the one that is named.
    NoPortAbove,
}

/// The port for plain connections and, two above it, the one for web sockets.
pub open spec fn ports(text: Seq<char>) -> Result<(u16, u16), PortError> {
    match number(text, u16::MAX as nat) {
        Ok(port) => if port + 2 <= u16::MAX {
            Ok((port as u16, (port + 2) as u16))
        } else {
            Err(PortError::NoPortAbove)
        },
        Err(e) => Err(PortError::NotAPort(e)),
    }
}

/// Reads the ports to listen on.
pub fn read_ports(text: &str) -> (r: Result<(u16, u16), PortError>)
    ensures
        r == ports(text@),
{
    match parse_number(text, u16::MAX as u64) {
        Ok(n) => {
            let port: u16 = n as u16;
            if port <= u16::MAX - 2 {
                Ok((port, port + 2))
            } else {
                Err(PortError::NoPortAbove)
            }
        },
        Err(e) => Err(PortError::NotAPort(e)),
    }
}

/// The port of the whitelist interface: the one that is named, if it is one.
pub open spec fn api_port(text: Option<Seq<char>>) -> u16 {
    match text {
        Some(t) => match number(t, u16::MAX as nat) {
            Ok(port) => port as u16,
            Err(_) => API_PORT,
        },
        None => API_PORT,
    }
}

/// Reads the port of the whitelist interface.
pub fn read_api_port(text: Option<&str>) -> (port: u16)
    ensures
        port == api_port(text_view(text)),
{
    match text {
        Some(t) => match parse_number(t, u16::MAX as u64) {
            Ok(n) => n as u16,
            Err(_) => API_PORT,
        },
        None => API_PORT,
    }
}

/// What the server starts with.
pub struct Plan {
    /// The key that connections have to know.
    pub key: ServerKey,
    /// Whether a whitelist is to be loaded.
    pub load_whitelist: bool,
    /// The ports to listen on.
    pub ports: Result<(u16, u16), PortError>,
    /// The port of the whitelist interface, if there is one.
    pub api: Option<u16>,
}

/// The view of an optional text.
pub open spec fn text_view(text: Option<&str>) -> Option<Seq<char>> {
    match text {
        Some(t) => Some(t@),
        None => None,
    }
}

/// The list that a file makes up, if it could be read.
pub open spec fn loaded(contents: Option<Seq<char>>) -> Set<Seq<char>> {
    match contents {
        Some(t) => file_addresses(t).to_set(),
        None => Set::empty(),
    }
}

/// Prepares the start: the port, the key and the path of the whitelist are what the server is
/// started with; the list files are there if they could be read, and the token and the port of
/// the whitelist interface if the environment names them. What the list files name is added to
/// what is listed already.
pub fn start(
    port: &str,
    key: &str,
    whitelist_path: &str,
    blacklist: Option<&str>,
    blocklist: Option<&str>,
    api_token: Option<&str>,
    api_port_text: Option<&str>,
    control: &mut Control,
) -> (plan: Plan)
    requires
        old(control).wf(),
    ensures
        plan.key@ == chosen_key(key@, public_key_text(key@)),
        plan.load_whitelist == (whitelist_path@.len() > 0),
        final(control).wf(),
        final(control)@ == (ControlView {
            blacklist: old(control)@.blacklist.union(loaded(text_view(blacklist))),
            blocklist: old(control)@.blocklist.union(loaded(text_view(blocklist))),
            ..old(control)@
        }),
        plan.ports == ports(port@),
        plan.api == (match text_view(api_token) {
            Some(token) => if token.len() > 0 {
                Some(api_port(text_view(api_port_text)))
            } else {
                None
            },
            None => None,
        }),
{
    let key = get_server_sk(key);
    if let Some(contents) = blacklist {
        load_list(&mut control.blacklist, contents);
    }
    if let Some(contents) = blocklist {
        load_list(&mut control.blocklist, contents);
    }
    proof {
        assert(control@.blacklist =~= old(control)@.blacklist.union(loaded(text_view(blacklist))));
        assert(control@.blocklist =~= old(control)@.blocklist.union(loaded(text_view(blocklist))));
    }
    let api: Option<u16> = match api_token {
        Some(token) => {
            if token.is_empty() {
                None
            } else {
                Some(read_api_port(api_port_text))
            }
        },
        None => None,
    };
    Plan {
        key,
        load_whitelist: !whitelist_path.is_empty(),
        ports: read_ports(port),
        api,
    }
}

/// Loading a list keeps what was listed, and every line adds its address.
pub proof fn loading_adds(list: Set<Seq<char>>, contents: Seq<char>, i: int)
    requires
        0 <= i < split_on(contents, '\n').len(),
    ensures
        ({
            let after = list.union(file_addresses(contents).to_set());
            &&& list.subset_of(after)
            &&& after.contains(line_address(split_on(contents, '\n')[i]))
        }),
{
    assert(file_addresses(contents)[i] == line_address(split_on(contents, '\n')[i]));
}

/// Starting a server again keeps what was listed, and starting it with the same files a second time
/// in a row changes nothing more.
pub proof fn starting_again_adds(list: Set<Seq<char>>, contents: Option<Seq<char>>)
    ensures
        list.subset_of(list.union(loaded(contents))),
        list.union(loaded(contents)).union(loaded(contents)) == list.union(loaded(contents)),
{
    assert(list.union(loaded(contents)).union(loaded(contents)) =~= list.union(loaded(contents)));
}

/// The two ports that are listened on differ, and a port that was written down is the one that is
/// read.
pub proof fn ports_are_read_back(port: nat)
    requires
        port <= u16::MAX,
    ensures
        ports(crate::number::decimal(port)) == (if port + 2 <= u16::MAX {
            Ok::<(u16, u16), PortError>((port as u16, (port + 2) as u16))
        } else {
            Err(PortError::NoPortAbove)
        }),
        api_port(Some(crate::number::decimal(port))) == port,
{
    crate::number::read_back(port, u16::MAX as nat);
}

/// The address on a line is its first word: white space before it does not matter, and neither does
/// what stands behind a blank or is white space.
pub proof fn the_first_word_is_the_address(before: Seq<char>, address: Seq<char>, rest: Seq<char>)
    requires
        forall|i: int| 0 <= i < before.len() ==> is_white_space(#[trigger] before[i]),
        address.len() > 0 && !address.contains(' '),
        !is_white_space(address[0]) && !is_white_space(address.last()),
        rest.len() == 0 || rest[0] == ' ' || (forall|i: int|
            0 <= i < rest.len() ==> is_white_space(#[trigger] rest[i])),
    ensures
        line_address(before + address + rest) == address,
{
    let s = address + rest;
    let e = Seq::<char>::empty();
    assert(before + address + rest =~= before + s + e);
    trim_of_padded(before, s, e);
    assert(s[0] == address[0]);
    assert(trim_start(s) == s);
    let b = lemma_trim_end(s);
    let n = address.len() as int;
    assert(s[n - 1] == address.last());
    if b < n {
        assert(is_white_space(s[n - 1]));
    }
    let t = s.take(b);
    if b == n {
        assert(t =~= address);
        split_of_free(address, ' ');
    } else {
        assert(s[b - 1] == rest[b - 1 - n]);
        assert(rest[0] == ' ');
        assert(t =~= address.push(' ') + t.skip(n + 1));
        split_of_sum(address, t.skip(n + 1), ' ');
        split_of_free(address, ' ');
    }
}

/// Of a line without the white space around it, the address is what stands before the first blank,
/// or all of it.
pub proof fn the_address_ends_at_a_blank(before: Seq<char>, line: Seq<char>, after: Seq<char>)
    requires
        forall|i: int| 0 <= i < before.len() ==> is_white_space(#[trigger] before[i]),
        forall|i: int| 0 <= i < after.len() ==> is_white_space(#[trigger] after[i]),
        line.len() > 0 && !is_white_space(line[0]) && !is_white_space(line.last()),
    ensures
        ({
            let address = line_address(before + line + after);
            &&& !address.contains(' ')
            &&& address.len() <= line.len() && line.take(address.len() as int) == address
            &&& address.len() < line.len() ==> line[address.len() as int] == ' '
        }),
{
    trim_of_padded(before, line, after);
    assert(trim_start(line) == line);
    assert(trim(line) == line);
    split_pieces_are_free(line, ' ');
    let pat = seq![' '];
    lemma_find_from(line, pat, 0);
    match find(line, pat) {
        Some(k) => {
            assert(line.subrange(k, k + 1)[0] == pat[0]);
            assert(split_on(line, ' ')[0] == line.take(k));
        },
        None => {
            assert(line.take(line.len() as int) =~= line);
        },
    }
}

/// A line of white space names the empty address.
pub proof fn an_empty_line_names_nothing(line: Seq<char>)
    requires
        forall|i: int| 0 <= i < line.len() ==> is_white_space(#[trigger] line[i]),
    ensures
        line_address(line) == Seq::<char>::empty(),
{
    let e = Seq::<char>::empty();
    trim_of_padded(line, e, e);
    assert(line + e + e =~= line);
    split_of_free(e, ' ');
}

/// A file that could be read makes up just the addresses on its lines, and one that could not be
/// read makes up none.
pub proof fn the_lines_are_loaded(contents: Seq<char>, address: Seq<char>)
    ensures
        loaded(Some(contents)).contains(address) <==> exists|i: int|
            0 <= i < split_on(contents, '\n').len() && line_address(
                #[trigger] split_on(contents, '\n')[i],
            ) == address,
        !loaded(None).contains(address),
{
    let rows = split_on(contents, '\n');
    let all = file_addresses(contents);
    if all.contains(address) {
        let i = choose|i: int| 0 <= i < all.len() && all[i] == address;
        assert(line_address(rows[i]) == address);
    }
    if exists|i: int| 0 <= i < rows.len() && line_address(#[trigger] rows[i]) == address {
        let i = choose|i: int| 0 <= i < rows.len() && line_address(#[trigger] rows[i]) == address;
        assert(all[i] == address);
    }
}

/// There are ports to listen on exactly where the text is a number up to 65533: that one and the
/// one two above it. What is wrong with a text that is no number is passed on. The port of the
/// whitelist interface is the number that is named up to 65535, and 21114 otherwise.
pub proof fn ports_are_right(text: Seq<char>)
    ensures
        match number(text, 65535) {
            Ok(n) => {
                &&& n <= 65533 ==> (ports(text) matches Ok(p) && p.0 == n && p.1 == n + 2)
                &&& n > 65533 ==> ports(text) == Err::<(u16, u16), PortError>(
                    PortError::NoPortAbove,
                )
                &&& api_port(Some(text)) == n
            },
            Err(e) => ports(text) == Err::<(u16, u16), PortError>(PortError::NotAPort(e))
                && api_port(Some(text)) == 21114,
        },
        api_port(None) == 21114,
{
    crate::number::number_is_bounded(text, 65535);
}

} // verus!

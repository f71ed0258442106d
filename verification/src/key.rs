//! The key that connections have to know.
use vstd::prelude::*;

use crate::text::same;

verus! {

/// The bytes that `base64::decode` makes of a text, if it makes any.
pub uninterp spec fn base64_bytes(text: Seq<char>) -> Option<Seq<u8>>;

/// The text that `base64::encode` makes of some bytes.
pub uninterp spec fn base64_text(bytes: Seq<u8>) -> Seq<char>;

/// `base64::decode`, in the standard alphabet: whether there are bytes, and which, is determined
/// by the text alone.
#[verifier::external_body]
fn decode_base64(text: &str) -> (r: Option<Vec<u8>>)
    ensures
        match r {
            Some(bytes) => base64_bytes(text@) == Some(bytes@),
            None => base64_bytes(text@) is None,
        },
{
    base64::decode(text).ok()
}

/// `base64::encode`, in the standard alphabet and with padding: the bytes alone determine the
/// text, which has four characters for every three bytes begun, and decoding gives the bytes
/// back. The bound keeps the text within what a string can hold.
#[verifier::external_body]
fn encode_base64(bytes: &[u8]) -> (text: String)
    requires
        bytes@.len() <= 0x4000_0000,
    ensures
        text@ == base64_text(bytes@),
        text@.len() == (bytes@.len() + 2) / 3 * 4,
        base64_bytes(text@) == Some(bytes@),
{
    base64::encode(bytes)
}

/// `sodiumoxide::crypto::sign::SECRETKEYBYTES`: how long a private key for signatures is.
#[verifier::external_body]
fn secret_key_bytes() -> (n: usize)
    ensures
        n == 64,
{
    sodiumoxide::crypto::sign::SECRETKEYBYTES
}

/// The key of the server.
pub enum ServerKey {
    /// This one. Connections need none if it is empty.
    Fixed(String),
    /// The public key of a pair that is kept in a file, and made if there is none.
    Generated,
}

/// The key of the server, as contracts speak of it.
pub enum ServerKeyView {
    Fixed(Seq<char>),
    Generated,
}

impl View for ServerKey {
    type V = ServerKeyView;

    open spec fn view(&self) -> ServerKeyView {
        match self {
            ServerKey::Fixed(key) => ServerKeyView::Fixed(key@),
            ServerKey::Generated => ServerKeyView::Generated,
        }
    }
}

/// The public key in a private one: the second half of its bytes. What has another length is no
/// private key.
pub open spec fn public_half(decoded: Option<Seq<u8>>) -> Option<Seq<u8>> {
    match decoded {
        Some(bytes) => if bytes.len() == 64 {
            Some(bytes.skip(32))
        } else {
            None
        },
        None => None,
    }
}

/// The key of the server: the public key in the one that was given, if it has one, and the given
/// one otherwise. A dash or an underscore asks for a key from a file.
pub open spec fn chosen_key(key: Seq<char>, public_key: Option<Seq<char>>) -> ServerKeyView {
    let k = match public_key {
        Some(p) => p,
        None => key,
    };
    if k == "-"@ || k == "_"@ {
        ServerKeyView::Generated
    } else {
        ServerKeyView::Fixed(k)
    }
}

/// The public key in a private one, written down.
pub open spec fn public_key_text(key: Seq<char>) -> Option<Seq<char>> {
    match public_half(base64_bytes(key)) {
        Some(half) => Some(base64_text(half)),
        None => None,
    }
}

/// The second half of a private key.
pub fn take_public_half(decoded: Option<Vec<u8>>) -> (r: Option<Vec<u8>>)
    ensures
        match r {
            Some(half) => decoded matches Some(bytes) && public_half(Some(bytes@)) == Some(half@),
            None => decoded matches Some(bytes) ==> public_half(Some(bytes@)) is None,
        },
{
    match decoded {
        Some(bytes) => {
            let n: usize = secret_key_bytes();
            if bytes.len() == n {
                let mut bytes = bytes;
                let half = bytes.split_off(n / 2);
                Some(half)
            } else {
                None
            }
        },
        None => None,
    }
}

/// Decides on the key, once the public key in the given one is known.
pub fn choose_key(key: &str, public_key: Option<String>) -> (r: ServerKey)
    ensures
        r@ == chosen_key(
            key@,
            match public_key {
                Some(p) => Some(p@),
                None => None,
            },
        ),
{
    let k = match public_key {
        Some(p) => p,
        None => key.to_owned(),
    };
    if same(k.as_str(), "-") || same(k.as_str(), "_") {
        ServerKey::Generated
    } else {
        ServerKey::Fixed(k)
    }
}

/// The key of the server, from the one that was given to it. Of a private key only the public
/// part is used; decoding that part gives the second half of the private key.
pub fn get_server_sk(key: &str) -> (r: ServerKey)
    ensures
        r@ == chosen_key(key@, public_key_text(key@)),
        public_half(base64_bytes(key@)) matches Some(half) ==> r@ == ServerKeyView::Fixed(
            base64_text(half),
        ) && base64_bytes(base64_text(half)) == Some(half),
{
    match take_public_half(decode_base64(key)) {
        Some(half) => {
            let text = encode_base64(half.as_slice());
            proof {
                reveal_strlit("-");
                reveal_strlit("_");
                assert("-"@.len() == 1);
                assert("_"@.len() == 1);
            }
            choose_key(key, Some(text))
        },
        None => choose_key(key, None),
    }
}

/// A key that decodes to half the length of a private one, such as a public key, is used as it
/// is: to decide on the key again changes nothing.
pub proof fn a_public_key_is_kept(key: Seq<char>)
    ensures
        key.len() > 1 && (base64_bytes(key) matches Some(half) && half.len() == 32)
            ==> chosen_key(key, public_key_text(key)) == ServerKeyView::Fixed(key),
{
    reveal_strlit("-");
    reveal_strlit("_");
}

/// A key that does not decode is used as it is, but for a dash and an underscore.
pub proof fn other_keys_are_kept(key: Seq<char>)
    ensures
        base64_bytes(key) is None ==> chosen_key(key, public_key_text(key)) == (if key == "-"@
            || key == "_"@ {
            ServerKeyView::Generated
        } else {
            ServerKeyView::Fixed(key)
        }),
{
}

/// What counts as a private key has 64 bytes, and the last 32 of them are its public key; anything
/// else has none.
pub proof fn the_last_half_is_public(bytes: Seq<u8>)
    ensures
        public_half(Some(bytes)) is Some <==> bytes.len() == 64,
        public_half(Some(bytes)) matches Some(half) ==> half.len() == 32 && forall|i: int|
            0 <= i < 32 ==> #[trigger] half[i] == bytes[32 + i],
        public_half(None) is None,
{
}

/// A key from a file is asked for exactly with a dash or an underscore, and only where there is no
/// public key in the given one. A public key is what is used where there is one, and the given key
/// where there is none.
pub proof fn which_key_is_used(key: Seq<char>, public_key: Seq<char>)
    ensures
        public_key.len() > 1 ==> chosen_key(key, Some(public_key)) == ServerKeyView::Fixed(
            public_key,
        ),
        chosen_key(key, None) is Generated <==> key.len() == 1 && (key[0] == '-' || key[0] == '_'),
        chosen_key(key, None) matches ServerKeyView::Fixed(k) ==> k == key,
        match base64_bytes(key) {
            Some(decoded) => if decoded.len() == 64 {
                public_key_text(key) == Some(base64_text(decoded.subrange(32, 64)))
            } else {
                public_key_text(key) is None
            },
            None => public_key_text(key) is None,
        },
{
    reveal_strlit("-");
    reveal_strlit("_");
    assert("-"@ =~= seq!['-']);
    assert("_"@ =~= seq!['_']);
    if key.len() == 1 {
        assert(key =~= seq![key[0]]);
    }
    if let Some(decoded) = base64_bytes(key) {
        if decoded.len() == 64 {
            assert(decoded.skip(32) =~= decoded.subrange(32, 64));
        }
    }
}

} // verus!

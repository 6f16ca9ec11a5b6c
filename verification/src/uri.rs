//! Connection URIs: `spanner://[host:port]/<database path>[?<option>=<value>&...]`.
//!
//! The authority, if there is one, is the endpoint, the path names the database, and the query sets
//! options of the database. Options that hold a secret are refused: URIs are routinely logged.

use vstd::prelude::*;
use vstd::string::*;
use vstd::utf8::{
    char_u32_cast, decode_utf8, encode_scalar, encode_utf8, encode_utf8_decode_utf8,
    encode_utf8_valid_utf8, valid_utf8,
};

use crate::error::{invalid_argument, Error, Status};
use crate::guard::read_utf8;
use crate::keys::{OPTION_ACCESS_TOKEN, OPTION_KEYFILE_JSON};
use crate::options::{non_empty, text_of, unless_empty};
use crate::text::{
    after, before, eq_str, pieces, split_on, split_once, substring, texts, to_chars,
};

verus! {

// ---------------------------------------------------------------------------------------------
// Percent-encoding
// ---------------------------------------------------------------------------------------------

/// The value of a hexadecimal digit, if the byte is one.
pub open spec fn hex_value(b: u8) -> Option<int> {
    if 48 <= b <= 57 {
        Some(b - 48)
    } else if 65 <= b <= 70 {
        Some(b - 55)
    } else if 97 <= b <= 102 {
        Some(b - 87)
    } else {
        None
    }
}

/// The bytes that percent-encoded bytes stand for, if every `%`, which is byte 37, is followed
/// by two hexadecimal digits.
pub open spec fn unescaped(bytes: Seq<u8>) -> Option<Seq<u8>>
    decreases bytes.len(),
{
    if bytes.len() == 0 {
        Some(Seq::empty())
    } else if bytes[0] != 37 {
        match unescaped(bytes.skip(1)) {
            Some(rest) => Some(seq![bytes[0]] + rest),
            None => None,
        }
    } else if bytes.len() >= 3 && hex_value(bytes[1]) is Some && hex_value(bytes[2]) is Some {
        match unescaped(bytes.skip(3)) {
            Some(rest) => Some(
                seq![(16 * hex_value(bytes[1])->Some_0 + hex_value(bytes[2])->Some_0) as u8]
                    + rest,
            ),
            None => None,
        }
    } else {
        None
    }
}

/// The text that percent-encoded text stands for, if it stands for UTF-8.
pub open spec fn percent_decoded(s: Seq<char>) -> Option<Seq<char>> {
    match unescaped(encode_utf8(s)) {
        Some(bytes) => if valid_utf8(bytes) {
            Some(decode_utf8(bytes))
        } else {
            None
        },
        None => None,
    }
}

fn hex_digit(b: u8) -> (r: Option<u8>)
    ensures
        match hex_value(b) {
            Some(n) => r is Some && r->Some_0 == n && n < 16,
            None => r is None,
        },
{
    if 48 <= b && b <= 57 {
        Some(b - 48)
    } else if 65 <= b && b <= 70 {
        Some(b - 55)
    } else if 97 <= b && b <= 102 {
        Some(b - 87)
    } else {
        None
    }
}

/// What `done` and the rest of the bytes stand for together.
spec fn continued(done: Seq<u8>, rest: Option<Seq<u8>>) -> Option<Seq<u8>> {
    match rest {
        Some(r) => Some(done + r),
        None => None,
    }
}

fn percent_decode(s: &str) -> (r: Option<String>)
    ensures
        match percent_decoded(s@) {
            Some(t) => r is Some && r->Some_0@ == t,
            None => r is None,
        },
{
    let bytes = s.as_bytes();
    let mut out: Vec<u8> = Vec::new();
    let mut i: usize = 0;
    proof {
        assert(bytes@.skip(0) =~= bytes@);
        if unescaped(bytes@) is Some {
            assert(out@ + unescaped(bytes@)->Some_0 =~= unescaped(bytes@)->Some_0);
        }
    }
    while i < bytes.len()
        invariant
            i <= bytes@.len(),
            unescaped(bytes@) == continued(out@, unescaped(bytes@.skip(i as int))),
            bytes@ == encode_utf8(s@),
        decreases bytes@.len() - i,
    {
        let ghost rest = bytes@.skip(i as int);
        let ghost done = out@;
        if bytes[i] != 37 {
            proof {
                assert(rest.skip(1) =~= bytes@.skip(i + 1));
                if unescaped(rest) is Some {
                    let tail = unescaped(rest.skip(1))->Some_0;
                    assert(done + (seq![bytes@[i as int]] + tail) =~= done.push(bytes@[i as int])
                        + tail);
                }
            }
            out.push(bytes[i]);
            i = i + 1;
        } else {
            if bytes.len() - i < 3 {
                assert(unescaped(rest) is None);
                return None;
            }
            match (hex_digit(bytes[i + 1]), hex_digit(bytes[i + 2])) {
                (Some(high), Some(low)) => {
                    let byte: u8 = 16 * high + low;
                    proof {
                        assert(rest[1] == bytes@[i + 1]);
                        assert(rest[2] == bytes@[i + 2]);
                        assert(rest.skip(3) =~= bytes@.skip(i + 3));
                        if unescaped(rest) is Some {
                            let tail = unescaped(rest.skip(3))->Some_0;
                            assert(done + (seq![byte] + tail) =~= done.push(byte) + tail);
                        }
                    }
                    out.push(byte);
                    i = i + 3;
                },
                _ => {
                    assert(rest[1] == bytes@[i + 1]);
                    assert(rest[2] == bytes@[i + 2]);
                    assert(unescaped(rest) is None);
                    return None;
                },
            }
        }
    }
    proof {
        assert(bytes@.skip(i as int) =~= Seq::<u8>::empty());
        assert(out@ + Seq::<u8>::empty() =~= out@);
    }
    match read_utf8(out.as_slice()) {
        Ok(t) => Some(t),
        Err(_) => None,
    }
}

/// Text without a `%` stands for itself.
pub proof fn lemma_percent_decoded(s: Seq<char>)
    requires
        !s.contains('%'),
    ensures
        percent_decoded(s) == Some(s),
{
    lemma_no_percent(s);
    lemma_unescaped(encode_utf8(s));
    encode_utf8_valid_utf8(s);
    encode_utf8_decode_utf8(s);
}

proof fn lemma_scalar_bytes(scalar: u32, byte: u8)
    requires
        scalar != 37,
        encode_scalar(scalar).contains(byte),
    ensures
        byte != 37,
{
    assert(scalar <= 0x7f && scalar != 37 ==> (scalar & 0x7f) as u8 != 37) by (bit_vector);
    assert(0xc0u8 | (((scalar >> 6) & 0x1f) as u8) != 37) by (bit_vector);
    assert(0xe0u8 | (((scalar >> 12) & 0x0f) as u8) != 37) by (bit_vector);
    assert(0xf0u8 | (((scalar >> 18) & 0x07) as u8) != 37) by (bit_vector);
    assert(0x80u8 | ((scalar & 0x3f) as u8) != 37) by (bit_vector);
    assert(0x80u8 | (((scalar >> 6) & 0x3f) as u8) != 37) by (bit_vector);
    assert(0x80u8 | (((scalar >> 12) & 0x3f) as u8) != 37) by (bit_vector);
}

proof fn lemma_no_percent(s: Seq<char>)
    requires
        !s.contains('%'),
    ensures
        !encode_utf8(s).contains(37u8),
    decreases s.len(),
{
    if s.len() > 0 {
        let head = encode_scalar(s[0] as u32);
        let tail = encode_utf8(s.drop_first());
        assert(s.contains(s[0]));
        assert(s[0] as u32 != 37) by {
            if s[0] as u32 == 37 {
                char_u32_cast(s[0], 37);
                char_u32_cast('%', 37);
            }
        }
        assert forall|c: char| s.drop_first().contains(c) implies s.contains(c) by {
            let i = choose|i: int| 0 <= i < s.drop_first().len() && s.drop_first()[i] == c;
            assert(s[i + 1] == c);
        }
        lemma_no_percent(s.drop_first());
        assert forall|i: int| 0 <= i < (head + tail).len() implies (head + tail)[i] != 37u8 by {
            if i < head.len() {
                assert(head.contains(head[i]));
                lemma_scalar_bytes(s[0] as u32, head[i]);
            } else {
                assert(tail.contains(tail[i - head.len()]));
            }
        }
    }
}

proof fn lemma_unescaped(bytes: Seq<u8>)
    requires
        !bytes.contains(37u8),
    ensures
        unescaped(bytes) == Some(bytes),
    decreases bytes.len(),
{
    if bytes.len() > 0 {
        assert(bytes.contains(bytes[0]));
        assert forall|b: u8| bytes.skip(1).contains(b) implies bytes.contains(b) by {
            let i = choose|i: int| 0 <= i < bytes.skip(1).len() && bytes.skip(1)[i] == b;
            assert(bytes[i + 1] == b);
        }
        lemma_unescaped(bytes.skip(1));
        assert(seq![bytes[0]] + bytes.skip(1) =~= bytes);
    } else {
        assert(bytes =~= Seq::empty());
    }
}

// ---------------------------------------------------------------------------------------------
// URIs
// ---------------------------------------------------------------------------------------------

/// What a connection URI comes to.
#[derive(Debug)]
pub struct ConnectionUri {
    /// The path of the database.
    pub database: String,
    /// The endpoint, where the URI names one.
    pub endpoint: Option<String>,
    /// The options that the URI sets, in order.
    pub options: Vec<(String, String)>,
}

pub struct UriView {
    pub database: Seq<char>,
    pub endpoint: Option<Seq<char>>,
    pub options: Seq<(Seq<char>, Seq<char>)>,
}

impl View for ConnectionUri {
    type V = UriView;

    open spec fn view(&self) -> UriView {
        UriView {
            database: self.database@,
            endpoint: text_of(self.endpoint),
            options: pairs(self.options@),
        }
    }
}

/// The texts of pairs of strings.
pub open spec fn pairs(options: Seq<(String, String)>) -> Seq<(Seq<char>, Seq<char>)> {
    options.map_values(|o: (String, String)| (o.0@, o.1@))
}

pub const SCHEME: &'static str = "spanner://";

pub const MALFORMED: &'static str = "the database URI is not of the form \"spanner://[host:port]/<database path>[?<option>=<value>[&<option>=<value>]...]\"";

/// Whether an option holds a secret.
pub open spec fn is_secret(key: Seq<char>) -> bool {
    key == OPTION_KEYFILE_JSON@ || key == OPTION_ACCESS_TOKEN@
}

pub open spec fn secret_message(key: Seq<char>) -> Seq<char> {
    "option "@ + key + " holds a secret and cannot be set in a connection URI; set it directly"@
}

/// The option that a part of the query sets.
pub open spec fn query_option(part: Seq<char>) -> Result<(Seq<char>, Seq<char>), Seq<char>> {
    let key = percent_decoded(before(part, '='));
    let value = percent_decoded(after(part, '='));
    if !part.contains('=') || key is None || value is None {
        Err(MALFORMED@)
    } else if is_secret(key->Some_0) {
        Err(secret_message(key->Some_0))
    } else {
        Ok((key->Some_0, value->Some_0))
    }
}

/// The options that the parts of a query set, or why the first part that sets none does not.
pub open spec fn query_options(parts: Seq<Seq<char>>) -> Result<
    Seq<(Seq<char>, Seq<char>)>,
    Seq<char>,
>
    decreases parts.len(),
{
    if parts.len() == 0 {
        Ok(Seq::empty())
    } else {
        match query_options(parts.drop_last()) {
            Err(m) => Err(m),
            Ok(options) => match query_option(parts.last()) {
                Ok(option) => Ok(options.push(option)),
                Err(m) => Err(m),
            },
        }
    }
}

/// The parts of a URI's query; none where there is no query or an empty one.
pub open spec fn query_parts(rest: Seq<char>) -> Seq<Seq<char>> {
    if rest.contains('?') && after(rest, '?').len() > 0 {
        pieces(after(rest, '?'), '&')
    } else {
        Seq::empty()
    }
}

/// What a connection URI comes to.
pub open spec fn expanded(uri: Seq<char>) -> Result<UriView, Seq<char>> {
    let rest = uri.skip(10);
    let main = if rest.contains('?') {
        before(rest, '?')
    } else {
        rest
    };
    let database = percent_decoded(after(main, '/'));
    if !(uri.len() >= 10 && uri.take(10) == SCHEME@) {
        Err(MALFORMED@)
    } else if !main.contains('/') || database is None || database->Some_0.len() == 0 {
        Err(MALFORMED@)
    } else {
        match query_options(query_parts(rest)) {
            Err(m) => Err(m),
            Ok(options) => Ok(
                UriView {
                    database: database->Some_0,
                    endpoint: unless_empty(before(main, '/')),
                    options,
                },
            ),
        }
    }
}

fn parse_query_option(part: &str) -> (r: Result<(String, String), Error>)
    ensures
        match query_option(part@) {
            Ok(option) => r is Ok && (r->Ok_0.0@, r->Ok_0.1@) == option,
            Err(m) => r is Err && r->Err_0.says(Status::InvalidArguments, m),
        },
{
    match split_once(part, '=') {
        None => Err(invalid_argument(MALFORMED.to_owned())),
        Some((key, value)) => match (
            percent_decode(key.as_str()),
            percent_decode(value.as_str()),
        ) {
            (Some(key), Some(value)) => {
                if eq_str(key.as_str(), OPTION_KEYFILE_JSON) || eq_str(
                    key.as_str(),
                    OPTION_ACCESS_TOKEN,
                ) {
                    let mut message = "option ".to_owned();
                    message.append(key.as_str());
                    message.append(
                        " holds a secret and cannot be set in a connection URI; set it directly",
                    );
                    Err(invalid_argument(message))
                } else {
                    Ok((key, value))
                }
            },
            _ => Err(invalid_argument(MALFORMED.to_owned())),
        },
    }
}

proof fn lemma_query_options_fail(parts: Seq<Seq<char>>, n: int)
    requires
        0 <= n <= parts.len(),
        query_options(parts.take(n)) is Err,
    ensures
        query_options(parts) == query_options(parts.take(n)),
    decreases parts.len() - n,
{
    if n == parts.len() {
        assert(parts.take(n) =~= parts);
    } else {
        assert(parts.take(n + 1).drop_last() =~= parts.take(n));
        lemma_query_options_fail(parts, n + 1);
    }
}

fn parse_query_options(list: &Vec<String>) -> (r: Result<Vec<(String, String)>, Error>)
    ensures
        match query_options(texts(list@)) {
            Ok(options) => r is Ok && pairs(r->Ok_0@) == options,
            Err(m) => r is Err && r->Err_0.says(Status::InvalidArguments, m),
        },
{
    let ghost parts = texts(list@);
    let mut out: Vec<(String, String)> = Vec::new();
    let mut i: usize = 0;
    assert(pairs(out@) =~= Seq::empty());
    assert(parts.take(0) =~= Seq::empty());
    while i < list.len()
        invariant
            i <= list@.len(),
            parts == texts(list@),
            query_options(parts.take(i as int)) == Ok::<Seq<(Seq<char>, Seq<char>)>, Seq<char>>(
                pairs(out@),
            ),
        decreases list@.len() - i,
    {
        proof {
            assert(parts.take(i + 1).drop_last() =~= parts.take(i as int));
            assert(parts.take(i + 1).last() == list@[i as int]@);
        }
        match parse_query_option(list[i].as_str()) {
            Ok(option) => {
                assert(pairs(out@.push(option)) =~= pairs(out@).push((option.0@, option.1@)));
                out.push(option);
            },
            Err(e) => {
                proof {
                    lemma_query_options_fail(parts, i + 1);
                }
                return Err(e);
            },
        }
        i = i + 1;
    }
    assert(parts.take(parts.len() as int) =~= parts);
    Ok(out)
}

/// Expands a connection URI. Whether the options that it sets exist, and take the values that it
/// gives them, is for whoever sets them to say.
pub fn parse_connection_uri(uri: &str) -> (r: Result<ConnectionUri, Error>)
    ensures
        match expanded(uri@) {
            Ok(found) => r is Ok && r->Ok_0@ == found,
            Err(m) => r is Err && r->Err_0.says(Status::InvalidArguments, m),
        },
{
    proof {
        reveal_strlit("spanner://");
    }
    let chars = to_chars(uri);
    if chars.len() < 10 {
        return Err(invalid_argument(MALFORMED.to_owned()));
    }
    let scheme = substring(chars.as_slice(), 0, 10);
    assert(scheme@ =~= uri@.take(10));
    if !eq_str(scheme.as_str(), SCHEME) {
        return Err(invalid_argument(MALFORMED.to_owned()));
    }
    let rest = substring(chars.as_slice(), 10, chars.len());
    assert(rest@ =~= uri@.skip(10));
    let (main, list): (String, Vec<String>) = match split_once(rest.as_str(), '?') {
        Some((main, query)) => {
            if query.as_str().is_empty() {
                (main, Vec::new())
            } else {
                let list = split_on(query.as_str(), '&');
                (main, list)
            }
        },
        None => (rest, Vec::new()),
    };
    assert(texts(Seq::<String>::empty()) =~= Seq::<Seq<char>>::empty());
    assert(texts(list@) == query_parts(uri@.skip(10)));
    match split_once(main.as_str(), '/') {
        None => Err(invalid_argument(MALFORMED.to_owned())),
        Some((authority, path)) => match percent_decode(path.as_str()) {
            None => Err(invalid_argument(MALFORMED.to_owned())),
            Some(database) => {
                if database.as_str().is_empty() {
                    return Err(invalid_argument(MALFORMED.to_owned()));
                }
                match parse_query_options(&list) {
                    Ok(options) => Ok(
                        ConnectionUri { database, endpoint: non_empty(authority), options },
                    ),
                    Err(e) => Err(e),
                }
            },
        },
    }
}

/// No connection URI sets an option that holds a secret.
pub proof fn lemma_no_secrets(uri: Seq<char>, i: int)
    requires
        expanded(uri) is Ok,
        0 <= i < expanded(uri)->Ok_0.options.len(),
    ensures
        !is_secret(expanded(uri)->Ok_0.options[i].0),
{
    lemma_no_secret_options(query_parts(uri.skip(10)), i);
}

proof fn lemma_no_secret_options(parts: Seq<Seq<char>>, i: int)
    requires
        query_options(parts) is Ok,
        0 <= i < query_options(parts)->Ok_0.len(),
    ensures
        !is_secret(query_options(parts)->Ok_0[i].0),
    decreases parts.len(),
{
    if parts.len() > 0 {
        let options = query_options(parts.drop_last())->Ok_0;
        if i < options.len() {
            lemma_no_secret_options(parts.drop_last(), i);
        }
    }
}

} // verus!

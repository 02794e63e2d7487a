//! The relay's own rules: where a share's objects are stored, how share ids
//! are drawn, and how its answers map to download errors.
use crate::crypto::random_string;
use crate::error::ShareError;
use vstd::prelude::*;
use vstd::string::{StrSliceExecFns, StringExecFns};

verus! {

/// The character of decimal digit `d`.
pub open spec fn digit_char(d: nat) -> char {
    seq!['0', '1', '2', '3', '4', '5', '6', '7', '8', '9'][d as int]
}

/// The decimal representation of `n`, without leading zeros.
pub open spec fn decimal(n: nat) -> Seq<char>
    decreases n,
{
    if n < 10 {
        seq![digit_char(n)]
    } else {
        decimal(n / 10).push(digit_char(n % 10))
    }
}

fn digit_str(d: usize) -> (s: &'static str)
    requires
        d < 10,
    ensures
        s@ == seq![digit_char(d as nat)],
{
    proof {
        reveal_strlit("0");
        reveal_strlit("1");
        reveal_strlit("2");
        reveal_strlit("3");
        reveal_strlit("4");
        reveal_strlit("5");
        reveal_strlit("6");
        reveal_strlit("7");
        reveal_strlit("8");
        reveal_strlit("9");
    }
    let s = match d {
        0 => "0",
        1 => "1",
        2 => "2",
        3 => "3",
        4 => "4",
        5 => "5",
        6 => "6",
        7 => "7",
        8 => "8",
        _ => "9",
    };
    assert(s@ =~= seq![digit_char(d as nat)]);
    s
}

/// `n` written in decimal.
pub fn decimal_string(n: usize) -> (s: String)
    ensures
        s@ == decimal(n as nat),
    decreases n,
{
    if n < 10 {
        String::from_str(digit_str(n))
    } else {
        let mut s = decimal_string(n / 10);
        s.append(digit_str(n % 10));
        s
    }
}

/// The object key of ciphertext block `seq` (1-based) of share `id`:
/// `file/<id>.<seq>`.
pub fn key_file(id: &str, seq: usize) -> (key: String)
    ensures
        key@ == "file/"@ + id@ + "."@ + decimal(seq as nat),
{
    let mut key = file_key_prefix(id);
    key.append(decimal_string(seq).as_str());
    key
}

/// The object key of the descriptor of share `id`: `metadata/<id>.json`.
pub fn key_metadata(id: &str) -> (key: String)
    ensures
        key@ == "metadata/"@ + id@ + ".json"@,
{
    let mut key = String::from_str("metadata/");
    key.append(id);
    key.append(".json");
    key
}

/// The common start of the object keys of every block of share `id`:
/// `file/<id>.`.
pub fn file_key_prefix(id: &str) -> (prefix: String)
    ensures
        prefix@ == "file/"@ + id@ + "."@,
{
    let mut prefix = String::from_str("file/");
    prefix.append(id);
    prefix.append(".");
    prefix
}

/// The share id stored under a descriptor's object key, if `key` is one.
pub fn share_id_of_metadata_key(key: &str) -> (id: Option<String>)
    ensures
        forall|name: Seq<char>| key@ == "metadata/"@ + name + ".json"@ ==> id is Some && id->Some_0@ == name,
        id is Some ==> key@ == "metadata/"@ + id->Some_0@ + ".json"@,
{
    proof {
        reveal_strlit("metadata/");
        reveal_strlit(".json");
    }
    let len = key.unicode_len();
    if len < 14 {
        return None;
    }
    let head = String::from_str(key.substring_char(0, 9));
    let tail = String::from_str(key.substring_char(len - 5, len));
    if head == String::from_str("metadata/") && tail == String::from_str(".json") {
        let id = String::from_str(key.substring_char(9, len - 5));
        proof {
            assert(key@ =~= "metadata/"@ + id@ + ".json"@);
        }
        Some(id)
    } else {
        proof {
            assert forall|name: Seq<char>| key@ != "metadata/"@ + name + ".json"@ by {
                if key@ == "metadata/"@ + name + ".json"@ {
                    assert(key@.subrange(0, 9) =~= "metadata/"@);
                    assert(key@.subrange(len - 5, len as int) =~= ".json"@);
                }
            }
        }
        None
    }
}

/// A share id character: a lowercase ASCII letter or a decimal digit.
pub open spec fn is_share_id_char(c: char) -> bool {
    ('a' <= c && c <= 'z') || ('0' <= c && c <= '9')
}

/// Draws a fresh share id of `length` characters, each a lowercase letter
/// or a digit.
pub fn new_share_id(length: usize) -> (id: String)
    ensures
        id@.len() == length,
        forall|i: int| 0 <= i < id@.len() ==> is_share_id_char(#[trigger] id@[i]),
{
    proof {
        reveal_strlit("abcdefghijklmnopqrstuvwxyz0123456789");
    }
    let charset = "abcdefghijklmnopqrstuvwxyz0123456789";
    assert(charset@.len() == 36);
    assert forall|c: char| charset@.contains(c) implies is_share_id_char(c) by {
        let k = choose|k: int| 0 <= k < charset@.len() && charset@[k] == c;
        assert(0 <= k < 36);
    }
    random_string(length, charset)
}

/// Which request a relay answer belongs to.
#[derive(Debug, Clone, Copy, PartialEq, Eq, Structural)]
pub enum Fetch {
    /// The share's descriptor.
    Metadata,
    /// One ciphertext block.
    Block,
}

/// A success status: 200 to 299.
pub open spec fn is_success(status: u16) -> bool {
    200 <= status && status < 300
}

/// Maps the relay's HTTP status to the download's outcome: success goes on,
/// a missing descriptor is `UnknownShare`, a missing block means the stream
/// was cut short and is `CiphertextCorrupted`, and any other status is a
/// `RelayError`.
pub fn check_status(status: u16, fetch: Fetch) -> (r: Result<(), ShareError>)
    ensures
        is_success(status) <==> r is Ok,
        status == 404 && fetch == Fetch::Metadata ==> r == Err::<(), ShareError>(ShareError::UnknownShare),
        status == 404 && fetch == Fetch::Block ==> r == Err::<(), ShareError>(ShareError::CiphertextCorrupted),
        !is_success(status) && status != 404 ==> r == Err::<(), ShareError>(ShareError::RelayError(status)),
{
    if 200 <= status && status < 300 {
        Ok(())
    } else if status == 404 {
        match fetch {
            Fetch::Metadata => Err(ShareError::UnknownShare),
            Fetch::Block => Err(ShareError::CiphertextCorrupted),
        }
    } else {
        Err(ShareError::RelayError(status))
    }
}

} // verus!

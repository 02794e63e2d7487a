//! The relay's configuration values that have defaults or need parsing.
use vstd::prelude::*;
use vstd::string::{StrSliceExecFns, StringExecFns};

verus! {

/// Address the relay listens on when none is configured.
pub fn default_listen_addr() -> (addr: String)
    ensures
        addr@ == "0.0.0.0:3000"@,
{
    String::from_str("0.0.0.0:3000")
}

/// Public URL of the relay when none is configured.
pub fn default_public_url() -> (url: String)
    ensures
        url@ == "http://localhost:3000/"@,
{
    String::from_str("http://localhost:3000/")
}

/// Length of the share ids the relay draws when none is configured.
pub fn default_random_uri_length() -> (n: usize)
    ensures
        n == 8,
{
    8
}

/// `s` cut at every comma: the pieces between commas, in order, empty ones
/// included; a string without commas is a single piece.
pub open spec fn split_commas(s: Seq<char>) -> Seq<Seq<char>>
    decreases s.len(),
{
    if s.len() == 0 {
        seq![Seq::<char>::empty()]
    } else if s.last() == ',' {
        split_commas(s.drop_last()).push(Seq::<char>::empty())
    } else {
        let pieces = split_commas(s.drop_last());
        pieces.update(pieces.len() - 1, pieces.last().push(s.last()))
    }
}

/// `split_commas` always yields at least one piece.
proof fn lemma_split_nonempty(s: Seq<char>)
    ensures
        split_commas(s).len() >= 1,
    decreases s.len(),
{
    if s.len() > 0 {
        lemma_split_nonempty(s.drop_last());
    }
}

/// The allowlist of writer emails, configured as one comma-separated string.
pub fn parse_allowed_emails(s: &str) -> (emails: Vec<String>)
    ensures
        emails@.map_values(|e: String| e@) == split_commas(s@),
{
    let len = s.unicode_len();
    let mut emails: Vec<String> = Vec::new();
    let mut start: usize = 0;
    let mut i: usize = 0;
    proof {
        assert(s@.subrange(0, 0) =~= Seq::<char>::empty());
        assert(emails@.map_values(|e: String| e@).push(s@.subrange(0, 0)) =~= split_commas(s@.subrange(0, 0)));
    }
    while i < len
        invariant
            len == s@.len(),
            start <= i <= len,
            emails@.map_values(|e: String| e@).push(s@.subrange(start as int, i as int)) == split_commas(s@.subrange(0, i as int)),
        decreases len - i,
    {
        let c = s.get_char(i);
        let ghost before = emails@.map_values(|e: String| e@);
        proof {
            assert(s@.subrange(0, i + 1).drop_last() =~= s@.subrange(0, i as int));
            assert(s@.subrange(0, i + 1).last() == c);
            lemma_split_nonempty(s@.subrange(0, i as int));
        }
        if c == ',' {
            let piece = String::from_str(s.substring_char(start, i));
            emails.push(piece);
            proof {
                assert(emails@.map_values(|e: String| e@) =~= before.push(piece@));
                assert(s@.subrange((i + 1) as int, (i + 1) as int) =~= Seq::<char>::empty());
            }
            start = i + 1;
        } else {
            proof {
                let pieces = split_commas(s@.subrange(0, i as int));
                assert(s@.subrange(start as int, i + 1) =~= s@.subrange(start as int, i as int).push(c));
                assert(before.push(s@.subrange(start as int, i + 1)) =~= pieces.update(pieces.len() - 1, pieces.last().push(c)));
            }
        }
        i = i + 1;
    }
    let last = String::from_str(s.substring_char(start, len));
    let ghost before = emails@.map_values(|e: String| e@);
    emails.push(last);
    proof {
        assert(emails@.map_values(|e: String| e@) =~= before.push(last@));
        assert(s@.subrange(0, len as int) =~= s@);
    }
    emails
}

} // verus!

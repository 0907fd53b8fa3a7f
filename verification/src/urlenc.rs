//! Percent-encoding of URL components through the `urlencoding` crate.

use vstd::prelude::*;
use vstd::utf8::encode_utf8;

use crate::paths::{join_with, split_on, split_state};
use crate::text::{chars_of, push_char, string_of};

verus! {

/// Bytes that `urlencoding` leaves as they are: ASCII letters, digits and `-._~`.
pub open spec fn is_unreserved(b: u8) -> bool {
    (48 <= b <= 57) || (65 <= b <= 90) || (97 <= b <= 122) || b == 45 || b == 46 || b == 95
        || b == 126
}

/// An upper-case hexadecimal digit.
pub open spec fn upper_hex(d: nat) -> char {
    if d < 10 {
        (d + 48) as char
    } else {
        (d + 55) as char
    }
}

/// The encoding of one byte: itself when unreserved, else `%` and two
/// upper-case hexadecimal digits.
pub open spec fn encode_byte(b: u8) -> Seq<char> {
    if is_unreserved(b) {
        seq![b as char]
    } else {
        seq!['%', upper_hex((b / 16) as nat), upper_hex((b % 16) as nat)]
    }
}

/// The percent-encoding of a byte string.
pub open spec fn percent_encode_bytes(bs: Seq<u8>) -> Seq<char>
    decreases bs.len(),
{
    if bs.len() == 0 {
        seq![]
    } else {
        percent_encode_bytes(bs.drop_last()) + encode_byte(bs.last())
    }
}

/// What `urlencoding::encode` gives: every byte of the UTF-8 encoding
/// percent-encoded except ASCII letters, digits and `-._~`.
pub open spec fn url_encode(s: Seq<char>) -> Seq<char> {
    percent_encode_bytes(encode_utf8(s))
}

/// `urlencoding::encode`. Its contract: the result is the UTF-8 bytes of the
/// argument with every byte but ASCII letters, digits and `-._~` written as
/// `%` and two upper-case hexadecimal digits.
#[verifier::external_body]
pub(crate) fn url_encode_str(s: &str) -> (res: String)
    ensures
        res@ == url_encode(s@),
{
    urlencoding::encode(s).into_owned()
}

/// What `encode_path` gives: every `/`-separated segment percent-encoded,
/// the separators kept.
pub open spec fn encode_path_spec(s: Seq<char>) -> Seq<char> {
    join_with(split_on(s, '/').map_values(|seg: Seq<char>| url_encode(seg)), seq!['/'])
}

/// The encoded output for the finished segments, with the separator after them.
spec fn encoded_done(done: Seq<Seq<char>>) -> Seq<char> {
    if done.len() == 0 {
        seq![]
    } else {
        join_with(done.map_values(|seg: Seq<char>| url_encode(seg)), seq!['/']) + seq!['/']
    }
}

/// Percent-encodes each `/`-separated segment of a repository path.
pub fn encode_path(s: &str) -> (res: String)
    ensures
        res@ == encode_path_spec(s@),
{
    let cs = chars_of(s);
    let mut res = String::new();
    let mut cur: Vec<char> = Vec::new();
    let mut i: usize = 0;
    while i < cs.len()
        invariant
            i <= cs@.len(),
            cs@ == s@,
            res@ == encoded_done(split_state(s@.take(i as int), '/').0),
            cur@ == split_state(s@.take(i as int), '/').1,
        decreases cs@.len() - i,
    {
        let c = cs[i];
        let ghost pre = s@.take(i as int);
        assert(s@.take(i + 1).drop_last() =~= pre);
        assert(s@.take(i + 1).last() == c);
        if c == '/' {
            let seg = string_of(cur.as_slice());
            let enc = url_encode_str(seg.as_str());
            res.append(enc.as_str());
            push_char(&mut res, '/');
            proof {
                let d = split_state(pre, '/').0;
                let f = |seg: Seq<char>| url_encode(seg);
                assert(d.push(cur@).map_values(f) =~= d.map_values(f).push(url_encode(cur@)));
                if d.len() == 0 {
                    assert(d.map_values(f).push(url_encode(cur@)) =~= seq![url_encode(cur@)]);
                } else {
                    assert(d.map_values(f).push(url_encode(cur@)).drop_last() =~= d.map_values(
                        f,
                    ));
                }
                assert(res@ =~= encoded_done(d.push(cur@)));
            }
            cur = Vec::new();
        } else {
            cur.push(c);
        }
        i += 1;
    }
    assert(s@.take(i as int) =~= s@);
    let seg = string_of(cur.as_slice());
    let enc = url_encode_str(seg.as_str());
    res.append(enc.as_str());
    proof {
        let d = split_state(s@, '/').0;
        let f = |seg: Seq<char>| url_encode(seg);
        assert(d.push(cur@).map_values(f) =~= d.map_values(f).push(url_encode(cur@)));
        if d.len() == 0 {
            assert(d.map_values(f).push(url_encode(cur@)) =~= seq![url_encode(cur@)]);
            assert(res@ =~= url_encode(cur@));
        } else {
            assert(d.map_values(f).push(url_encode(cur@)).drop_last() =~= d.map_values(f));
        }
        assert(res@ =~= encode_path_spec(s@));
    }
    res
}

} // verus!

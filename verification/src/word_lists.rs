//! Loading of the practice word lists: each list arrives as a gzip stream
//! whose inflated text holds one word per line. Inflating and UTF-8
//! decoding are done by outside code; the line splitting is verified
//! against the usual line-ending rules.

use vstd::prelude::*;
use vstd::string::StrSliceExecFns;
use crate::text::{pop_char, push_char};
use crate::word_queue::words_of;

verus! {

/// A named, ordered word list.
#[derive(Debug)]
pub struct WordList {
    pub name: String,
    pub words: Vec<String>,
}

/// A trailing carriage return stripped, as a line ending may be `\r\n`.
pub open spec fn strip_cr(line: Seq<char>) -> Seq<char> {
    if line.len() > 0 && line.last() == '\r' {
        line.drop_last()
    } else {
        line
    }
}

/// The lines of `s` with `cur` as the segment read so far: each newline
/// ends a line (a carriage return just before it is stripped), and a final
/// segment without a line ending is kept as it stands.
pub open spec fn lines_rec(s: Seq<char>, cur: Seq<char>) -> Seq<Seq<char>>
    decreases s.len(),
{
    if s.len() == 0 {
        if cur.len() == 0 {
            Seq::<Seq<char>>::empty()
        } else {
            seq![cur]
        }
    } else if s.first() == '\n' {
        seq![strip_cr(cur)] + lines_rec(s.drop_first(), Seq::<char>::empty())
    } else {
        lines_rec(s.drop_first(), cur.push(s.first()))
    }
}

/// The lines of a text.
pub open spec fn lines_of(s: Seq<char>) -> Seq<Seq<char>> {
    lines_rec(s, Seq::<char>::empty())
}

/// What inflating a gzip stream yields; it depends on the bytes alone.
pub uninterp spec fn inflate_of(data: Seq<u8>) -> Option<Seq<u8>>;

/// What decoding bytes as UTF-8 yields; it depends on the bytes alone.
pub uninterp spec fn utf8_decode_of(bytes: Seq<u8>) -> Option<Seq<char>>;

/// Relies on flate2's `read::GzDecoder`: inflates a complete gzip stream,
/// or fails on malformed input; the result depends on the bytes alone.
#[verifier::external_body]
fn inflate_gzip(data: &[u8]) -> (r: Option<Vec<u8>>)
    ensures
        r is Some <==> inflate_of(data@) is Some,
        r matches Some(v) ==> inflate_of(data@) == Some(v@),
{
    let mut decoder = flate2::read::GzDecoder::new(data);
    let mut out: Vec<u8> = Vec::new();
    match std::io::Read::read_to_end(&mut decoder, &mut out) {
        Ok(_) => Some(out),
        Err(_) => None,
    }
}

/// Relies on String::from_utf8: decodes the bytes as UTF-8, or fails on
/// invalid input; the result depends on the bytes alone.
#[verifier::external_body]
fn bytes_to_string(bytes: Vec<u8>) -> (r: Option<String>)
    ensures
        r is Some <==> utf8_decode_of(bytes@) is Some,
        r matches Some(s) ==> utf8_decode_of(bytes@) == Some(s@),
{
    String::from_utf8(bytes).ok()
}

/// The words of one compressed list: the lines of the inflated, decoded
/// text, or no words at all where either step fails.
pub open spec fn words_of_source(data: Seq<u8>) -> Seq<Seq<char>> {
    match inflate_of(data) {
        Some(bytes) => match utf8_decode_of(bytes) {
            Some(text) => lines_of(text),
            None => Seq::<Seq<char>>::empty(),
        },
        None => Seq::<Seq<char>>::empty(),
    }
}

/// Splits a text into its lines.
pub fn split_lines(s: &str) -> (r: Vec<String>)
    ensures
        words_of(r@) == lines_of(s@),
{
    let n = s.unicode_len();
    let mut out: Vec<String> = Vec::new();
    let mut cur = String::new();
    let mut i: usize = 0;
    proof {
        assert(s@.skip(0) =~= s@);
        assert(words_of(out@) =~= Seq::<Seq<char>>::empty());
    }
    while i < n
        invariant
            i <= n,
            n == s@.len(),
            lines_of(s@) == words_of(out@) + lines_rec(s@.skip(i as int), cur@),
        decreases n - i,
    {
        let ghost rest = s@.skip(i as int);
        let ghost out0 = words_of(out@);
        let c = s.get_char(i);
        proof {
            assert(rest.first() == s@[i as int]);
            assert(rest.drop_first() =~= s@.skip(i as int + 1));
        }
        if c == '\n' {
            let mut line = cur;
            cur = String::new();
            let ghost line0 = line@;
            let len = line.as_str().unicode_len();
            if len > 0 && line.as_str().get_char(len - 1) == '\r' {
                pop_char(&mut line);
            }
            proof {
                assert(line@ == strip_cr(line0));
            }
            out.push(line);
            proof {
                assert(words_of(out@) =~= out0.push(strip_cr(line0)));
                assert(out0.push(strip_cr(line0)) =~= out0 + seq![strip_cr(line0)]);
                assert(lines_rec(rest, line0) == seq![strip_cr(line0)] + lines_rec(
                    rest.drop_first(),
                    Seq::<char>::empty(),
                ));
                assert(words_of(out@) + lines_rec(s@.skip(i as int + 1), cur@) =~= out0 + (
                seq![strip_cr(line0)] + lines_rec(rest.drop_first(), Seq::<char>::empty())));
            }
        } else {
            let ghost cur0 = cur@;
            push_char(&mut cur, c);
            proof {
                assert(lines_rec(rest, cur0) == lines_rec(rest.drop_first(), cur0.push(c)));
                assert(cur@ == cur0.push(c));
            }
        }
        i = i + 1;
    }
    proof {
        assert(s@.skip(n as int) =~= Seq::<char>::empty());
    }
    if cur.as_str().unicode_len() > 0 {
        let ghost out0 = words_of(out@);
        out.push(cur);
        proof {
            assert(words_of(out@) =~= out0.push(cur@));
            assert(out0.push(cur@) =~= out0 + seq![cur@]);
        }
    } else {
        proof {
            assert(words_of(out@) + lines_rec(Seq::<char>::empty(), cur@) =~= words_of(out@));
        }
    }
    out
}

/// The words of one embedded compressed list, as `words_of_source`
/// describes; a malformed source degrades to an empty list.
pub fn load_words_from_embedded(source: &[u8]) -> (r: Vec<String>)
    ensures
        words_of(r@) == words_of_source(source@),
{
    match inflate_gzip(source) {
        Some(bytes) => {
            match bytes_to_string(bytes) {
                Some(text) => split_lines(text.as_str()),
                None => {
                    let r: Vec<String> = Vec::new();
                    proof {
                        assert(words_of(r@) =~= Seq::<Seq<char>>::empty());
                    }
                    r
                },
            }
        },
        None => {
            let r: Vec<String> = Vec::new();
            proof {
                assert(words_of(r@) =~= Seq::<Seq<char>>::empty());
            }
            r
        },
    }
}

/// Loads every named compressed list in order.
pub fn load_word_lists(sources: Vec<(String, Vec<u8>)>) -> (r: Vec<WordList>)
    ensures
        r@.len() == sources@.len(),
        forall|i: int|
            0 <= i < r@.len() ==> (#[trigger] r@[i]).name@ == sources@[i].0@ && words_of(
                r@[i].words@,
            ) == words_of_source(sources@[i].1@),
{
    let mut r: Vec<WordList> = Vec::new();
    let mut i: usize = 0;
    while i < sources.len()
        invariant
            i <= sources.len(),
            r@.len() == i,
            forall|j: int|
                0 <= j < i ==> (#[trigger] r@[j]).name@ == sources@[j].0@ && words_of(
                    r@[j].words@,
                ) == words_of_source(sources@[j].1@),
        decreases sources.len() - i,
    {
        let name = sources[i].0.clone();
        let words = load_words_from_embedded(sources[i].1.as_slice());
        r.push(WordList { name, words });
        i = i + 1;
    }
    r
}

} // verus!

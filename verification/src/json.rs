//! JSON framing of the values that cross the engine boundary.
//!
//! The broker hands a script its request as JSON text and receives JSON text
//! back. Building that text is the library's own logic: the exact character
//! sequence produced is pinned down by the spec functions here, with string
//! escaping as the engine's JSON reader expects it.

use vstd::prelude::*;
use crate::contract::ApiRequest;

verus! {

/// The lower-case hex digit for a value below 16.
pub open spec fn spec_hex_digit(n: u32) -> char
    recommends
        n < 16,
{
    if n == 0 {
        '0'
    } else if n == 1 {
        '1'
    } else if n == 2 {
        '2'
    } else if n == 3 {
        '3'
    } else if n == 4 {
        '4'
    } else if n == 5 {
        '5'
    } else if n == 6 {
        '6'
    } else if n == 7 {
        '7'
    } else if n == 8 {
        '8'
    } else if n == 9 {
        '9'
    } else if n == 10 {
        'a'
    } else if n == 11 {
        'b'
    } else if n == 12 {
        'c'
    } else if n == 13 {
        'd'
    } else if n == 14 {
        'e'
    } else {
        'f'
    }
}

/// How one character is written inside a JSON string literal: quote and
/// backslash get a backslash escape, the named control characters get their
/// short escapes, any other control character gets a `\u00..` escape, and
/// everything else stands as itself.
pub open spec fn spec_escape_char(c: char) -> Seq<char> {
    if c == '"' {
        seq!['\\', '"']
    } else if c == '\\' {
        seq!['\\', '\\']
    } else if c == '\u{8}' {
        seq!['\\', 'b']
    } else if c == '\t' {
        seq!['\\', 't']
    } else if c == '\n' {
        seq!['\\', 'n']
    } else if c == '\u{c}' {
        seq!['\\', 'f']
    } else if c == '\r' {
        seq!['\\', 'r']
    } else if (c as u32) < 32 {
        seq!['\\', 'u', '0', '0', spec_hex_digit((c as u32) / 16), spec_hex_digit((c as u32) % 16)]
    } else {
        seq![c]
    }
}

/// The escaped form of a whole string, character by character.
pub open spec fn spec_escape(s: Seq<char>) -> Seq<char>
    decreases s.len(),
{
    if s.len() == 0 {
        Seq::empty()
    } else {
        spec_escape(s.drop_last()) + spec_escape_char(s.last())
    }
}

/// A JSON string literal: the escaped characters between double quotes.
pub open spec fn spec_json_string(s: Seq<char>) -> Seq<char> {
    seq!['"'] + spec_escape(s) + seq!['"']
}

/// One object member whose value text is already JSON.
pub open spec fn spec_member(key: Seq<char>, value: Seq<char>) -> Seq<char> {
    spec_json_string(key) + seq![':'] + value
}

/// The comma-separated members of an object whose values are all strings.
pub open spec fn spec_string_members(pairs: Seq<(Seq<char>, Seq<char>)>) -> Seq<char>
    decreases pairs.len(),
{
    if pairs.len() == 0 {
        Seq::empty()
    } else if pairs.len() == 1 {
        spec_member(pairs[0].0, spec_json_string(pairs[0].1))
    } else {
        spec_string_members(pairs.drop_last()) + seq![','] + spec_member(
            pairs.last().0,
            spec_json_string(pairs.last().1),
        )
    }
}

/// A JSON object whose values are all strings, in the order given.
pub open spec fn spec_string_map(pairs: Seq<(Seq<char>, Seq<char>)>) -> Seq<char> {
    seq!['{'] + spec_string_members(pairs) + seq!['}']
}

/// An optional string: `null` when absent, a JSON string literal otherwise.
pub open spec fn spec_opt_string(body: Option<Seq<char>>) -> Seq<char> {
    match body {
        None => "null"@,
        Some(s) => spec_json_string(s),
    }
}

/// The exact JSON text of a request as the engine-side handler sees it:
/// an object with the six request fields, in this order.
pub open spec fn spec_request_json(
    url: Seq<char>,
    headers: Seq<(Seq<char>, Seq<char>)>,
    method: Seq<char>,
    body: Option<Seq<char>>,
    params: Seq<(Seq<char>, Seq<char>)>,
    query: Seq<(Seq<char>, Seq<char>)>,
) -> Seq<char> {
    seq!['{'] + spec_member("url"@, spec_json_string(url)) + seq![','] + spec_member(
        "headers"@,
        spec_string_map(headers),
    ) + seq![','] + spec_member("method"@, spec_json_string(method)) + seq![','] + spec_member(
        "body"@,
        spec_opt_string(body),
    ) + seq![','] + spec_member("params"@, spec_string_map(params)) + seq![','] + spec_member(
        "query"@,
        spec_string_map(query),
    ) + seq!['}']
}

/// Escape one string for inclusion in JSON text.
pub fn escape_string(s: &str) -> (out: String)
    ensures
        out@ == spec_escape(s@),
{
    let mut out = String::new();
    let len: usize = s.unicode_len();
    let mut i: usize = 0;
    while i < len
        invariant
            i <= len,
            len == s@.len(),
            out@ == spec_escape(s@.take(i as int)),
        decreases len - i,
    {
        let c = s.get_char(i);
        if c == '"' {
            out.append("\\\"");
            proof {
                reveal_strlit("\\\"");
            }
        } else if c == '\\' {
            out.append("\\\\");
            proof {
                reveal_strlit("\\\\");
            }
        } else if c == '\u{8}' {
            out.append("\\b");
            proof {
                reveal_strlit("\\b");
            }
        } else if c == '\t' {
            out.append("\\t");
            proof {
                reveal_strlit("\\t");
            }
        } else if c == '\n' {
            out.append("\\n");
            proof {
                reveal_strlit("\\n");
            }
        } else if c == '\u{c}' {
            out.append("\\f");
            proof {
                reveal_strlit("\\f");
            }
        } else if c == '\r' {
            out.append("\\r");
            proof {
                reveal_strlit("\\r");
            }
        } else if (c as u32) < 32 {
            out.append("\\u00");
            let v: u32 = c as u32;
            let digits = "0123456789abcdef";
            proof {
                reveal_strlit("\\u00");
                reveal_strlit("0123456789abcdef");
            }
            let hi: usize = (v / 16) as usize;
            let lo: usize = (v % 16) as usize;
            out.append(digits.substring_char(hi, hi + 1));
            out.append(digits.substring_char(lo, lo + 1));
            proof {
                assert(digits@.subrange(hi as int, hi as int + 1) =~= seq![
                    spec_hex_digit(v / 16),
                ]);
                assert(digits@.subrange(lo as int, lo as int + 1) =~= seq![
                    spec_hex_digit(v % 16),
                ]);
            }
        } else {
            out.append(s.substring_char(i, i + 1));
            proof {
                assert(s@.subrange(i as int, i as int + 1) =~= seq![s@[i as int]]);
            }
        }
        proof {
            assert(s@.take(i as int + 1).drop_last() =~= s@.take(i as int));
            assert(s@.take(i as int + 1).last() == s@[i as int]);
            assert(out@ =~= spec_escape(s@.take(i as int)) + spec_escape_char(s@[i as int]));
        }
        i = i + 1;
    }
    proof {
        assert(s@.take(len as int) =~= s@);
    }
    out
}

/// Write one string as a JSON string literal.
pub fn json_string(s: &str) -> (out: String)
    ensures
        out@ == spec_json_string(s@),
{
    let mut out = String::from_str("\"");
    out.append(escape_string(s).as_str());
    out.append("\"");
    proof {
        reveal_strlit("\"");
        assert(out@ =~= spec_json_string(s@));
    }
    out
}

/// Write a string-to-string map as a JSON object, keeping the given order.
pub fn json_string_map(pairs: &Vec<(String, String)>) -> (out: String)
    ensures
        out@ == spec_string_map(pairs.deep_view()),
{
    let mut out = String::from_str("{");
    proof {
        reveal_strlit("{");
    }
    let mut i: usize = 0;
    while i < pairs.len()
        invariant
            i <= pairs.deep_view().len(),
            pairs.deep_view().len() == pairs@.len(),
            out@ == seq!['{'] + spec_string_members(pairs.deep_view().take(i as int)),
        decreases pairs@.len() - i,
    {
        if i > 0 {
            out.append(",");
            proof {
                reveal_strlit(",");
            }
        }
        out.append(json_string(pairs[i].0.as_str()).as_str());
        out.append(":");
        proof {
            reveal_strlit(":");
        }
        out.append(json_string(pairs[i].1.as_str()).as_str());
        proof {
            let pv = pairs.deep_view();
            assert(pv[i as int] == (pairs@[i as int].0@, pairs@[i as int].1@));
            assert(pv.take(i as int + 1).drop_last() =~= pv.take(i as int));
            assert(pv.take(i as int + 1).last() == pv[i as int]);
            if i == 0 {
                assert(out@ =~= seq!['{'] + spec_string_members(pv.take(1)));
            } else {
                assert(out@ =~= seq!['{'] + spec_string_members(pv.take(i as int)) + seq![',']
                    + spec_member(pv[i as int].0, spec_json_string(pv[i as int].1)));
                assert(out@ =~= seq!['{'] + spec_string_members(pv.take(i as int + 1)));
            }
        }
        i = i + 1;
    }
    out.append("}");
    proof {
        reveal_strlit("}");
        assert(pairs.deep_view().take(pairs.deep_view().len() as int) =~= pairs.deep_view());
        assert(out@ =~= spec_string_map(pairs.deep_view()));
    }
    out
}

/// Write an optional string: `null` when absent.
pub fn json_opt_string(body: &Option<String>) -> (out: String)
    ensures
        out@ == spec_opt_string(body.deep_view()),
{
    match body {
        None => String::from_str("null"),
        Some(s) => json_string(s.as_str()),
    }
}

/// The JSON text handed to a script handler for a request: the six request
/// fields as one object, in the contract's order.
#[verifier::rlimit(60)]
pub fn request_json(r: &ApiRequest) -> (out: String)
    ensures
        out@ == spec_request_json(
            r.url@,
            r.headers.deep_view(),
            r.method@,
            r.body.deep_view(),
            r.params.deep_view(),
            r.query.deep_view(),
        ),
{
    let mut out = String::from_str("{");
    out.append(json_string("url").as_str());
    out.append(":");
    out.append(json_string(r.url.as_str()).as_str());
    out.append(",");
    out.append(json_string("headers").as_str());
    out.append(":");
    out.append(json_string_map(&r.headers).as_str());
    out.append(",");
    out.append(json_string("method").as_str());
    out.append(":");
    out.append(json_string(r.method.as_str()).as_str());
    out.append(",");
    out.append(json_string("body").as_str());
    out.append(":");
    out.append(json_opt_string(&r.body).as_str());
    out.append(",");
    out.append(json_string("params").as_str());
    out.append(":");
    out.append(json_string_map(&r.params).as_str());
    out.append(",");
    out.append(json_string("query").as_str());
    out.append(":");
    out.append(json_string_map(&r.query).as_str());
    out.append("}");
    proof {
        reveal_strlit("{");
        reveal_strlit("}");
        reveal_strlit(":");
        reveal_strlit(",");
        assert(out@ =~= spec_request_json(
            r.url@,
            r.headers.deep_view(),
            r.method@,
            r.body.deep_view(),
            r.params.deep_view(),
            r.query.deep_view(),
        ));
    }
    out
}


/// The body of an error reply: one object with a single `error` member.
pub open spec fn spec_error_body(m: Seq<char>) -> Seq<char> {
    seq!['{'] + spec_member("error"@, spec_json_string(m)) + seq!['}']
}

/// Write the error-reply body for a diagnostic message.
pub fn error_body(m: &str) -> (out: String)
    ensures
        out@ == spec_error_body(m@),
{
    let mut out = String::from_str("{");
    out.append(json_string("error").as_str());
    out.append(":");
    out.append(json_string(m).as_str());
    out.append("}");
    proof {
        reveal_strlit("{");
        reveal_strlit("}");
        reveal_strlit(":");
        assert(out@ =~= spec_error_body(m@));
    }
    out
}


/// An absent body is written as `null`, never as a string: its framing
/// differs from the framing of every string body, the empty one included.
pub proof fn lemma_absent_body_distinct(s: Seq<char>)
    ensures
        spec_opt_string(None) != spec_opt_string(Some(s)),
{
    reveal_strlit("null");
    assert(spec_opt_string(None)[0] == 'n');
    assert(spec_opt_string(Some(s))[0] == '"');
}

} // verus!

//! SQL text helpers and the commit-acknowledgment rule.
//!
//! The gateway speaks SQL with quoted literals; these helpers produce the
//! literal forms, with contracts that pin the exact character sequence.

use vstd::prelude::*;
use vstd::string::*;

use crate::text::{i64_to_string, is_blank, is_blank_text, signed_dec_rep, str_eq};

verus! {

/// Relies on std's `String::push`: it appends the given character to the
/// end of the string.
pub assume_specification[ String::push ](s: &mut String, c: char)
    ensures
        final (s)@ == old(s)@.push(c),
;

/// How one character appears inside a single-quoted SQL literal:
/// a quote is doubled, everything else stands as it is.
pub open spec fn quoted_char(c: char) -> Seq<char> {
    if c == '\'' {
        seq!['\'', '\'']
    } else {
        seq![c]
    }
}

/// The body of a single-quoted SQL literal for `s`.
pub open spec fn quoted(s: Seq<char>) -> Seq<char>
    decreases s.len(),
{
    if s.len() == 0 {
        Seq::empty()
    } else {
        quoted(s.drop_last()) + quoted_char(s.last())
    }
}

/// Escapes a string for use inside a single-quoted SQL literal by
/// doubling every single quote.
pub fn sql_quote(s: &str) -> (r: String)
    ensures
        r@ == quoted(s@),
{
    let len = s.unicode_len();
    let mut r = String::new();
    let mut i: usize = 0;
    while i < len
        invariant
            i <= len,
            len == s@.len(),
            r@ == quoted(s@.subrange(0, i as int)),
        decreases len - i,
    {
        let c = s.get_char(i);
        if c == '\'' {
            r.push('\'');
            r.push('\'');
        } else {
            r.push(c);
        }
        proof {
            let pre = s@.subrange(0, (i + 1) as int);
            assert(pre.drop_last() =~= s@.subrange(0, i as int));
            assert(pre.last() == s@[i as int]);
        }
        i = i + 1;
    }
    proof {
        assert(s@.subrange(0, len as int) =~= s@);
    }
    r
}

/// The SQL literal for an optional integer: the decimal digits, or `NULL`.
pub open spec fn sql_opt_int(v: Option<int>) -> Seq<char> {
    match v {
        Option::None => "NULL"@,
        Option::Some(n) => signed_dec_rep(n),
    }
}

/// Renders an optional integer as a SQL literal: its decimal form, or the
/// keyword `NULL` when absent.
pub fn to_sql_null_or_int(v: Option<i64>) -> (r: String)
    ensures
        r@ == sql_opt_int(
            match v {
                Option::None => Option::None,
                Option::Some(n) => Option::Some(n as int),
            },
        ),
{
    match v {
        Option::Some(n) => i64_to_string(n),
        Option::None => String::from_str("NULL"),
    }
}

/// The SQL literal for an optional text: a single-quoted escaped literal,
/// or `NULL` when the text is absent or all whitespace.
pub open spec fn sql_opt_text(v: Option<Seq<char>>) -> Seq<char> {
    match v {
        Option::None => "NULL"@,
        Option::Some(s) => if is_blank_text(s) {
            "NULL"@
        } else {
            seq!['\''] + quoted(s) + seq!['\'']
        },
    }
}

/// Renders an optional text as a SQL literal: quoted and escaped, or the
/// keyword `NULL` when the value is absent or only whitespace.
pub fn to_sql_null_or_string(v: &Option<String>) -> (r: String)
    ensures
        r@ == sql_opt_text(
            match v {
                Option::None => Option::None,
                Option::Some(s) => Option::Some(s@),
            },
        ),
{
    match v {
        Option::None => String::from_str("NULL"),
        Option::Some(s) => {
            if is_blank(s.as_str()) {
                String::from_str("NULL")
            } else {
                let mut r = String::new();
                r.push('\'');
                let body = sql_quote(s.as_str());
                r.append(body.as_str());
                r.push('\'');
                proof {
                    assert(r@ =~= seq!['\''] + quoted(s@) + seq!['\'']);
                }
                r
            }
        },
    }
}

/// The exact message the transport sometimes returns for a commit that did
/// in fact reach the server.
pub const EMPTY_BATON_MSG: &'static str = "Stream closed: server returned empty baton";

/// The view of [`EMPTY_BATON_MSG`].
pub open spec fn empty_baton_msg() -> Seq<char> {
    "Stream closed: server returned empty baton"@
}

/// Classifies a commit outcome: an error carrying exactly the empty-baton
/// message is treated as success, since the underlying write did commit;
/// any other error is passed through unchanged.
pub fn ignore_empty_baton_commit(res: Result<(), String>) -> (r: Result<(), String>)
    ensures
        match res {
            Result::Ok(()) => r is Ok,
            Result::Err(m) => if m@ == empty_baton_msg() {
                r is Ok
            } else {
                r == Result::<(), String>::Err(m)
            },
        },
{
    match res {
        Result::Ok(()) => Result::Ok(()),
        Result::Err(m) => {
            if str_eq(m.as_str(), "Stream closed: server returned empty baton") {
                Result::Ok(())
            } else {
                Result::Err(m)
            }
        },
    }
}

} // verus!

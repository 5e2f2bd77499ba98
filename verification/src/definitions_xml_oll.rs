//! The shape of parameter metadata read from definition files in the older
//! XML layout, and the small text scrubbers its fields need. Deserializing
//! the XML itself is the caller's concern.

use vstd::prelude::*;
use crate::push_pull::ParseErrorKind;
use crate::util::{check_float_text, is_float_text, str_chars};

verus! {

/// Where a definition came from.
#[derive(Debug, Clone, Copy, PartialEq, Eq, Structural)]
pub enum Source {
    Unknown,
}

/// Whose concern a parameter is.
#[derive(Debug, Clone, Copy, PartialEq, Eq, Structural)]
pub enum User {
    Standard,
    Advanced,
}

impl Default for User {
    /// An unmarked parameter is a standard one.
    fn default() -> (r: Self)
        ensures
            r == User::Standard,
    {
        User::Standard
    }
}

/// An ASCII whitespace character.
pub open spec fn is_space(c: char) -> bool {
    c == ' ' || c == '\t' || c == '\n' || c == '\r'
}

/// The text with its whitespace removed.
pub open spec fn despaced(s: Seq<char>) -> Seq<char> {
    s.filter(|c: char| !is_space(c))
}

/// Parses a string into a float's text, even if there is some whitespace
/// around the digits: the whitespace is dropped, and what remains must
/// denote a 32-bit float.
pub fn parse_dirty_float(s: &str) -> (r: Result<String, ParseErrorKind>)
    ensures
        match r {
            Ok(v) => v@ == despaced(s@) && is_float_text(v@),
            Err(k) => k == ParseErrorKind::InvalidValue && !is_float_text(despaced(s@)),
        },
{
    let cs = str_chars(s);
    let mut sanitized = String::new();
    let n = cs.len();
    let mut i: usize = 0;
    while i < n
        invariant
            i <= n == cs@.len(),
            cs@ == s@,
            sanitized@ == despaced(s@.take(i as int)),
        decreases n - i,
    {
        let c = cs[i];
        proof {
            let pred = |ch: char| !is_space(ch);
            reveal_with_fuel(Seq::filter, 2);
            assert(s@.take(i + 1) =~= s@.take(i as int) + seq![c]);
            Seq::filter_distributes_over_add(s@.take(i as int), seq![c], pred);
            assert(seq![c].drop_last() =~= Seq::<char>::empty());
        }
        if !(c == ' ' || c == '\t' || c == '\n' || c == '\r') {
            sanitized.push(c);
        }
        i = i + 1;
    }
    proof {
        assert(s@.take(n as int) =~= s@);
    }
    if check_float_text(sanitized.as_str()) {
        Ok(sanitized)
    } else {
        Err(ParseErrorKind::InvalidValue)
    }
}

} // verus!

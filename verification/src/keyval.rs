use crate::text::{chars_of, text_of_range};
use vstd::prelude::*;
use vstd::string::StringExecFns;

verus! {

/// Why a text is no pair of key and value.
#[derive(Debug, PartialEq, Eq)]
pub enum ParseKVError {
    /// The text holds no `=`.
    InvalidFormat(String),
}

impl ParseKVError {
    /// The error as a sentence that shows the text.
    pub fn message(&self) -> (m: String)
        ensures
            match self {
                ParseKVError::InvalidFormat(s) => m@ == "no `=` found in `"@ + s@ + "`"@,
            },
    {
        match self {
            ParseKVError::InvalidFormat(s) => {
                let mut m = String::from_str("no `=` found in `");
                m.append(s.as_str());
                m.append("`");
                m
            },
        }
    }
}

/// How many characters other than `=` stand in a row from position `i` on.
pub open spec fn key_run(s: Seq<char>, i: int) -> nat
    decreases s.len() - i,
{
    if 0 <= i < s.len() && s[i] != '=' {
        1 + key_run(s, i + 1)
    } else {
        0
    }
}

/// A key runs up to the first `=`, or to the end of the text.
pub proof fn lemma_key_run(s: Seq<char>, i: int)
    requires
        0 <= i <= s.len(),
    ensures
        i + key_run(s, i) <= s.len(),
        i + key_run(s, i) < s.len() ==> s[i + key_run(s, i)] == '=',
        forall|j: int| i <= j < i + key_run(s, i) ==> s[j] != '=',
    decreases s.len() - i,
{
    if i < s.len() && s[i] != '=' {
        lemma_key_run(s, i + 1);
    }
}

/// Splits `KEY=VALUE` at its first `=`: the key is what stands before it,
/// the value all that stands behind it. A text without `=` is refused.
pub fn parse_key_val(s: &str) -> (r: Result<(String, String), ParseKVError>)
    ensures
        match r {
            Ok((k, v)) => {
                &&& s@.contains('=')
                &&& k@ == s@.subrange(0, key_run(s@, 0) as int)
                &&& v@ == s@.subrange(key_run(s@, 0) as int + 1, s@.len() as int)
                &&& !k@.contains('=')
                &&& s@ == k@ + seq!['='] + v@
            },
            Err(ParseKVError::InvalidFormat(t)) => !s@.contains('=') && t@ == s@,
        },
{
    let chars = chars_of(s);
    let mut pos: usize = 0;
    while pos < chars.len() && chars[pos] != '='
        invariant
            pos <= chars.len(),
            pos + key_run(chars@, pos as int) == key_run(chars@, 0),
        decreases chars.len() - pos,
    {
        pos += 1;
    }
    proof {
        lemma_key_run(chars@, 0);
    }
    if pos == chars.len() {
        assert(!s@.contains('=')) by {
            if s@.contains('=') {
                let j = s@.index_of('=');
                assert(0 <= j < s@.len() && s@[j] == '=');
            }
        }
        return Err(ParseKVError::InvalidFormat(String::from_str(s)));
    }
    let k = text_of_range(&chars, 0, pos);
    let v = text_of_range(&chars, pos + 1, chars.len());
    proof {
        assert(s@[pos as int] == '=');
        assert(s@ =~= k@ + seq!['='] + v@);
        if k@.contains('=') {
            let j = k@.index_of('=');
            assert(0 <= j < k@.len() && k@[j] == '=');
            assert(s@[j] == '=');
        }
    }
    Ok((k, v))
}

} // verus!

use crate::request::{pair_views, transport};
use crate::task::ReqTask;
use crate::text::{chars_of, push_text, text_of};
use vstd::prelude::*;
use vstd::string::StringExecFns;

verus! {

/// What one character becomes between single quotes of a shell: a backslash
/// is put before a backslash and before a single quote.
pub open spec fn escaped_char(c: char) -> Seq<char> {
    if c == '\\' || c == '\'' {
        seq!['\\', c]
    } else {
        seq![c]
    }
}

/// `s` with a backslash before each backslash and each single quote.
pub open spec fn shell_escaped(s: Seq<char>) -> Seq<char>
    decreases s.len(),
{
    if s.len() == 0 {
        Seq::empty()
    } else {
        shell_escaped(s.drop_last()) + escaped_char(s.last())
    }
}

/// Puts a backslash before each backslash and each single quote of `s`.
pub fn shell_escape(s: &str) -> (r: String)
    ensures
        r@ == shell_escaped(s@),
{
    let chars = chars_of(s);
    let mut out: Vec<char> = Vec::new();
    let mut i: usize = 0;
    while i < chars.len()
        invariant
            i <= chars.len(),
            out@ == shell_escaped(chars@.take(i as int)),
        decreases chars.len() - i,
    {
        let c = chars[i];
        assert(chars@.take(i + 1).drop_last() =~= chars@.take(i as int));
        if c == '\\' || c == '\'' {
            out.push('\\');
        }
        out.push(c);
        assert(out@ =~= shell_escaped(chars@.take(i as int)) + escaped_char(c));
        i += 1;
    }
    assert(chars@.take(i as int) =~= chars@);
    text_of(&out)
}

/// `pat` stands somewhere in `text`.
pub open spec fn occurs_in(pat: Seq<char>, text: Seq<char>) -> bool {
    exists|i: int| 0 <= i && i + pat.len() <= text.len() && #[trigger] text.subrange(
        i,
        i + pat.len(),
    ) == pat
}

/// Whether `pat` stands at position `i` of `text`.
fn stands_at(text: &Vec<char>, pat: &Vec<char>, i: usize) -> (r: bool)
    requires
        i + pat.len() <= text.len(),
    ensures
        r == (text@.subrange(i as int, i + pat.len()) == pat@),
{
    let mut j: usize = 0;
    while j < pat.len()
        invariant
            j <= pat.len(),
            i + pat.len() <= text.len(),
            forall|k: int| 0 <= k < j ==> text@[i + k] == pat@[k],
        decreases pat.len() - j,
    {
        if text[i + j] != pat[j] {
            assert(text@.subrange(i as int, i + pat.len())[j as int] != pat@[j as int]);
            return false;
        }
        j += 1;
    }
    assert(text@.subrange(i as int, i + pat.len()) =~= pat@);
    true
}

/// Whether `pat` stands somewhere in `text`.
pub fn contains(text: &Vec<char>, pat: &Vec<char>) -> (r: bool)
    ensures
        r == occurs_in(pat@, text@),
{
    if pat.len() > text.len() {
        return false;
    }
    let last: usize = text.len() - pat.len();
    let mut i: usize = 0;
    loop
        invariant
            i <= last,
            last == text.len() - pat.len(),
            forall|k: int| 0 <= k < i ==> #[trigger] text@.subrange(k, k + pat.len()) != pat@,
        decreases last - i,
    {
        if stands_at(text, pat, i) {
            return true;
        }
        if i == last {
            return false;
        }
        i += 1;
    }
}

/// The token `REQUEST_BODY` with `k` pairs of underscores before it and behind it.
pub open spec fn wrapped(k: nat) -> Seq<char>
    decreases k,
{
    if k == 0 {
        "REQUEST_BODY"@
    } else {
        "__"@ + wrapped((k - 1) as nat) + "__"@
    }
}

/// The length of a wrapped token.
pub proof fn lemma_wrapped_len(k: nat)
    ensures
        wrapped(k).len() == 12 + 4 * k,
    decreases k,
{
    reveal_strlit("REQUEST_BODY");
    reveal_strlit("__");
    if k > 0 {
        lemma_wrapped_len((k - 1) as nat);
    }
}

/// The number of wrappings, from `k` on, of the first token that does not
/// stand in `body`.
pub open spec fn first_free(body: Seq<char>, k: nat) -> nat
    decreases body.len() - 4 * k,
{
    if occurs_in(wrapped(k), body) {
        proof {
            lemma_wrapped_len(k);
        }
        first_free(body, k + 1)
    } else {
        k
    }
}

/// The token that ends the body in a shell command: `REQUEST_BODY`, wrapped
/// in underscores until it does not stand in the body.
pub open spec fn boundary_for(body: Seq<char>) -> Seq<char> {
    wrapped(first_free(body, 0))
}

/// The token of a body does not stand in the body.
pub proof fn lemma_boundary_is_free(body: Seq<char>, k: nat)
    ensures
        !occurs_in(wrapped(first_free(body, k)), body),
    decreases body.len() - 4 * k,
{
    if occurs_in(wrapped(k), body) {
        lemma_wrapped_len(k);
        lemma_boundary_is_free(body, k + 1);
    }
}

/// A token that does not stand in `body`: `REQUEST_BODY`, or the first of
/// its wrappings in underscores that does not.
pub fn choose_boundary(body: &str) -> (r: String)
    ensures
        r@ == boundary_for(body@),
        !occurs_in(r@, body@),
{
    let text = chars_of(body);
    let mut boundary = chars_of("REQUEST_BODY");
    let ghost mut k: nat = 0;
    proof {
        lemma_wrapped_len(0);
    }
    while contains(&text, &boundary)
        invariant
            text@ == body@,
            boundary@ == wrapped(k),
            boundary@.len() == 12 + 4 * k,
            first_free(body@, k) == first_free(body@, 0),
        decreases text.len() + 4 - boundary.len(),
    {
        assert(boundary@.len() <= text@.len());
        let mut next = chars_of("__");
        next.append(&mut boundary);
        push_text(&mut next, "__");
        boundary = next;
        proof {
            k = k + 1;
            lemma_wrapped_len(k);
        }
    }
    proof {
        lemma_boundary_is_free(body@, 0);
    }
    text_of(&boundary)
}

/// The request as it was built: what a shell command has to say.
#[derive(Debug, PartialEq, Eq)]
pub struct BuiltRequest {
    pub method: String,
    pub url: String,
    pub headers: Vec<(String, String)>,
    pub body: Option<String>,
}

/// The part of the command for the first `n` headers: for each a new line
/// with `-H` and the header between single quotes.
pub open spec fn header_flags(headers: Seq<(Seq<char>, Seq<char>)>, n: int) -> Seq<char>
    decreases n,
{
    if n <= 0 {
        Seq::empty()
    } else {
        header_flags(headers, n - 1) + " \\\n\t-H '"@ + shell_escaped(
            headers[n - 1].0 + ":"@ + headers[n - 1].1,
        ) + "'"@
    }
}

/// The part of the command for the body: nothing where there is none or it
/// is empty, else the body between two lines with its token.
pub open spec fn body_part(body: Option<Seq<char>>) -> Seq<char> {
    match body {
        Some(b) => if b.len() > 0 {
            " \\\n\t-d @- << "@ + boundary_for(b) + "\n"@ + b + "\n"@ + boundary_for(b)
        } else {
            Seq::empty()
        },
        None => Seq::empty(),
    }
}

/// The shell command for a request: `curl`, `-k` where certificates are not
/// checked, `-L` where redirects are followed, the method, the address, the
/// headers and the body.
pub open spec fn curl_command(
    insecure: bool,
    follow: bool,
    method: Seq<char>,
    url: Seq<char>,
    headers: Seq<(Seq<char>, Seq<char>)>,
    body: Option<Seq<char>>,
) -> Seq<char> {
    "curl"@ + (if insecure {
        " -k"@
    } else {
        Seq::empty()
    }) + (if follow {
        " -L"@
    } else {
        Seq::empty()
    }) + " -X "@ + shell_escaped(method) + " '"@ + shell_escaped(url) + "'"@ + header_flags(
        headers,
        headers.len() as int,
    ) + body_part(body)
}

impl ReqTask {
    /// The call of curl that sends `request`, with the flags that the task asks for.
    pub fn to_curl(&self, request: &BuiltRequest) -> (r: String)
        ensures
            r@ == curl_command(
                transport(self@).insecure,
                transport(self@).redirect > 0,
                request.method@,
                request.url@,
                pair_views(request.headers@),
                match request.body {
                    Some(b) => Some(b@),
                    None => None,
                },
            ),
    {
        let (insecure, follow) = match &self.config {
            Some(c) => (c.insecure, c.redirect > 0),
            None => (false, false),
        };
        let mut out = String::from_str("curl");
        if insecure {
            out.append(" -k");
        }
        if follow {
            out.append(" -L");
        }
        out.append(" -X ");
        out.append(shell_escape(request.method.as_str()).as_str());
        out.append(" '");
        out.append(shell_escape(request.url.as_str()).as_str());
        out.append("'");
        let ghost head = out@;
        let ghost headers = pair_views(request.headers@);
        assert(head =~= "curl"@ + (if insecure {
            " -k"@
        } else {
            Seq::empty()
        }) + (if follow {
            " -L"@
        } else {
            Seq::empty()
        }) + " -X "@ + shell_escaped(request.method@) + " '"@ + shell_escaped(request.url@)
            + "'"@);
        let mut i: usize = 0;
        assert(head + header_flags(headers, 0) =~= head);
        while i < request.headers.len()
            invariant
                i <= request.headers.len(),
                headers == pair_views(request.headers@),
                out@ == head + header_flags(headers, i as int),
            decreases request.headers.len() - i,
        {
            let mut kv = request.headers[i].0.clone();
            kv.append(":");
            kv.append(request.headers[i].1.as_str());
            assert(kv@ == headers[i as int].0 + ":"@ + headers[i as int].1);
            let ghost before = out@;
            out.append(" \\\n\t-H '");
            out.append(shell_escape(kv.as_str()).as_str());
            out.append("'");
            assert(out@ =~= head + header_flags(headers, i + 1)) by {
                assert(out@ =~= before + " \\\n\t-H '"@ + shell_escaped(kv@) + "'"@);
            }
            i += 1;
        }
        let ghost middle = out@;
        match &request.body {
            Some(body) => {
                if !body.as_str().is_empty() {
                    let boundary = choose_boundary(body.as_str());
                    out.append(" \\\n\t-d @- << ");
                    out.append(boundary.as_str());
                    out.append("\n");
                    out.append(body.as_str());
                    out.append("\n");
                    out.append(boundary.as_str());
                    assert(out@ =~= middle + body_part(Some(body@)));
                } else {
                    assert(out@ =~= middle + body_part(Some(body@)));
                }
            },
            None => {
                assert(out@ =~= middle + body_part(None));
            },
        }
        out
    }
}

} // verus!

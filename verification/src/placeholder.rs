use crate::text::{chars_of, text_of_range};
use vstd::prelude::*;

verus! {

/// A character that may stand in a bare name: an ASCII letter or digit.
pub open spec fn is_name_char(c: char) -> bool {
    let n = c as u32;
    (0x30 <= n <= 0x39) || (0x41 <= n <= 0x5a) || (0x61 <= n <= 0x7a)
}

/// How many name characters stand in a row from position `i` on.
pub open spec fn name_run(s: Seq<char>, i: int) -> nat
    decreases s.len() - i,
{
    if 0 <= i < s.len() && is_name_char(s[i]) {
        1 + name_run(s, i + 1)
    } else {
        0
    }
}

/// How many characters other than `}` stand in a row from position `i` on.
pub open spec fn open_run(s: Seq<char>, i: int) -> nat
    decreases s.len() - i,
{
    if 0 <= i < s.len() && s[i] != '}' {
        1 + open_run(s, i + 1)
    } else {
        0
    }
}

/// The name part of a placeholder, as it stands behind the dollar sign.
pub struct Body {
    /// Where the name starts, counted from the start of the body.
    pub skip: nat,
    /// The length of the name.
    pub name_len: nat,
    /// The length of the whole body, braces included.
    pub len: nat,
}

/// The body that starts at position `i`: `{name}` with a name of one or
/// more characters other than `}`, or a run of name characters.
pub open spec fn body_at(s: Seq<char>, i: int) -> Option<Body> {
    if !(0 <= i < s.len()) {
        None
    } else if s[i] == '{' {
        let n = open_run(s, i + 1);
        if n >= 1 && i + 1 + n < s.len() {
            Some(Body { skip: 1, name_len: n, len: n + 2 })
        } else {
            None
        }
    } else if is_name_char(s[i]) {
        let n = name_run(s, i);
        Some(Body { skip: 0, name_len: n, len: n })
    } else {
        None
    }
}

/// A placeholder found in a text.
pub struct Placeholder {
    /// Whether a second dollar sign stands before it, so that it is kept as text.
    pub escaped: bool,
    /// The name between the braces, or the bare name.
    pub name: Seq<char>,
    /// The number of characters that the placeholder takes, dollar signs included.
    pub len: nat,
}

/// The placeholder that starts at position `i` of `s`, if one does:
/// `$` and a body, or `$$` and a body.
pub open spec fn placeholder_at(s: Seq<char>, i: int) -> Option<Placeholder> {
    if !(0 <= i < s.len()) || s[i] != '$' {
        None
    } else if i + 1 < s.len() && s[i + 1] == '$' {
        match body_at(s, i + 2) {
            Some(b) => Some(
                Placeholder {
                    escaped: true,
                    name: s.subrange(i + 2 + b.skip, i + 2 + b.skip + b.name_len),
                    len: 2 + b.len,
                },
            ),
            None => None,
        }
    } else {
        match body_at(s, i + 1) {
            Some(b) => Some(
                Placeholder {
                    escaped: false,
                    name: s.subrange(i + 1 + b.skip, i + 1 + b.skip + b.name_len),
                    len: 1 + b.len,
                },
            ),
            None => None,
        }
    }
}

/// A run of name characters ends inside the text.
pub proof fn lemma_name_run_bound(s: Seq<char>, i: int)
    requires
        0 <= i <= s.len(),
    ensures
        i + name_run(s, i) <= s.len(),
    decreases s.len() - i,
{
    if i < s.len() && is_name_char(s[i]) {
        lemma_name_run_bound(s, i + 1);
    }
}

/// A run of characters other than `}` ends inside the text.
pub proof fn lemma_open_run_bound(s: Seq<char>, i: int)
    requires
        0 <= i <= s.len(),
    ensures
        i + open_run(s, i) <= s.len(),
    decreases s.len() - i,
{
    if i < s.len() && s[i] != '}' {
        lemma_open_run_bound(s, i + 1);
    }
}

/// A placeholder has a name of at least one character and ends inside the text.
pub proof fn lemma_placeholder_bounds(s: Seq<char>, i: int)
    ensures
        placeholder_at(s, i) matches Some(p) ==> {
            &&& 0 <= i
            &&& i + p.len <= s.len()
            &&& 1 <= p.name.len() < p.len
        },
{
    if 0 <= i < s.len() {
        if i + 1 <= s.len() {
            lemma_name_run_bound(s, i + 1);
        }
        if i + 2 <= s.len() {
            lemma_name_run_bound(s, i + 2);
            lemma_open_run_bound(s, i + 2);
        }
        if i + 3 <= s.len() {
            lemma_open_run_bound(s, i + 3);
        }
    }
}

/// What the scanner reports of a placeholder: the positions of its name and of its end.
pub struct Found {
    pub escaped: bool,
    pub name_start: usize,
    pub name_end: usize,
    pub end: usize,
}

impl Found {
    /// The placeholder that this report describes, found at position `i` of `s`.
    pub open spec fn describes(self, s: Seq<char>, i: int, p: Placeholder) -> bool {
        &&& self.escaped == p.escaped
        &&& self.end == i + p.len
        &&& i < self.name_start <= self.name_end <= self.end <= s.len()
        &&& p.name == s.subrange(self.name_start as int, self.name_end as int)
    }
}

/// Whether `c` is an ASCII letter or digit.
pub fn name_char(c: char) -> (r: bool)
    ensures
        r == is_name_char(c),
{
    let n: u32 = c as u32;
    (0x30 <= n && n <= 0x39) || (0x41 <= n && n <= 0x5a) || (0x61 <= n && n <= 0x7a)
}

/// The end of the run of name characters that starts at `i`.
fn name_run_end(s: &Vec<char>, i: usize) -> (j: usize)
    requires
        i <= s.len(),
    ensures
        j == i + name_run(s@, i as int),
        j <= s.len(),
{
    let mut j: usize = i;
    while j < s.len() && name_char(s[j])
        invariant
            i <= j <= s.len(),
            j + name_run(s@, j as int) == i + name_run(s@, i as int),
        decreases s.len() - j,
    {
        j += 1;
    }
    j
}

/// The position of the first `}` at or after `i`, or the length of `s`.
fn open_run_end(s: &Vec<char>, i: usize) -> (j: usize)
    requires
        i <= s.len(),
    ensures
        j == i + open_run(s@, i as int),
        j <= s.len(),
{
    let mut j: usize = i;
    while j < s.len() && s[j] != '}'
        invariant
            i <= j <= s.len(),
            j + open_run(s@, j as int) == i + open_run(s@, i as int),
        decreases s.len() - j,
    {
        j += 1;
    }
    j
}

/// Finds the body that starts at `i`: the positions of its name and its end.
fn find_body(s: &Vec<char>, i: usize) -> (r: Option<(usize, usize, usize)>)
    requires
        i <= s.len(),
    ensures
        match body_at(s@, i as int) {
            Some(b) => r == Some(
                ((i + b.skip) as usize, (i + b.skip + b.name_len) as usize, (i + b.len) as usize),
            ) && i + b.len <= s.len() && b.skip + b.name_len <= b.len,
            None => r is None,
        },
{
    if i >= s.len() {
        return None;
    }
    if s[i] == '{' {
        let j = open_run_end(s, i + 1);
        if j > i + 1 && j < s.len() {
            Some((i + 1, j, j + 1))
        } else {
            None
        }
    } else if name_char(s[i]) {
        let j = name_run_end(s, i);
        Some((i, j, j))
    } else {
        None
    }
}

/// Finds the placeholder that starts at position `i` of `s`.
pub fn find_placeholder(s: &Vec<char>, i: usize) -> (r: Option<Found>)
    requires
        i < s.len(),
    ensures
        match placeholder_at(s@, i as int) {
            Some(p) => r matches Some(f) && f.describes(s@, i as int, p),
            None => r is None,
        },
{
    if s[i] != '$' {
        return None;
    }
    let escaped = i + 1 < s.len() && s[i + 1] == '$';
    let start: usize = if escaped {
        i + 2
    } else {
        i + 1
    };
    match find_body(s, start) {
        Some((name_start, name_end, end)) => Some(Found { escaped, name_start, name_end, end }),
        None => None,
    }
}

/// How many characters stand from position `i` on before a placeholder starts.
pub open spec fn literal_run(s: Seq<char>, i: int) -> nat
    decreases s.len() - i,
{
    if 0 <= i < s.len() && placeholder_at(s, i) is None {
        1 + literal_run(s, i + 1)
    } else {
        0
    }
}

/// A run of characters before a placeholder ends inside the text, and is not
/// empty where no placeholder starts.
pub proof fn lemma_literal_run_bound(s: Seq<char>, i: int)
    requires
        0 <= i <= s.len(),
    ensures
        i + literal_run(s, i) <= s.len(),
        i < s.len() && placeholder_at(s, i) is None ==> literal_run(s, i) >= 1,
    decreases s.len() - i,
{
    if i < s.len() && placeholder_at(s, i) is None {
        lemma_literal_run_bound(s, i + 1);
    }
}

/// A part of a text, as the scanner cuts it.
pub enum Piece {
    /// Characters that are copied as they stand.
    Text(Seq<char>),
    /// The name of a placeholder, to be replaced by its value.
    Name(Seq<char>),
}

/// The pieces of `s` from position `i` on, scanned once from left to right:
/// the text before a placeholder, then the placeholder, and so on. An escaped
/// placeholder is text, without its first dollar sign.
pub open spec fn pieces_from(s: Seq<char>, i: int) -> Seq<Piece>
    decreases s.len() - i,
{
    if !(0 <= i < s.len()) {
        Seq::empty()
    } else {
        match placeholder_at(s, i) {
            Some(p) => {
                let first = if p.escaped {
                    Piece::Text(s.subrange(i + 1, i + p.len))
                } else {
                    Piece::Name(p.name)
                };
                proof {
                    lemma_placeholder_bounds(s, i);
                }
                seq![first] + pieces_from(s, i + p.len)
            },
            None => {
                let n = literal_run(s, i);
                proof {
                    lemma_literal_run_bound(s, i);
                }
                seq![Piece::Text(s.subrange(i, i + n))] + pieces_from(s, i + n)
            },
        }
    }
}

/// The pieces of the whole text.
pub open spec fn pieces(s: Seq<char>) -> Seq<Piece> {
    pieces_from(s, 0)
}

/// A piece of a text, as `tokenize` hands it out.
#[derive(Debug, PartialEq, Eq)]
pub enum Token {
    Text(String),
    Name(String),
}

impl View for Token {
    type V = Piece;

    open spec fn view(&self) -> Piece {
        match self {
            Token::Text(t) => Piece::Text(t@),
            Token::Name(n) => Piece::Name(n@),
        }
    }
}

/// The pieces that a vector of tokens stands for.
pub open spec fn token_views(tokens: Seq<Token>) -> Seq<Piece> {
    Seq::new(tokens.len(), |i: int| tokens[i]@)
}

/// The end of the run of characters before the next placeholder.
fn literal_run_end(s: &Vec<char>, i: usize) -> (j: usize)
    requires
        i <= s.len(),
    ensures
        j == i + literal_run(s@, i as int),
        j <= s.len(),
{
    let mut j: usize = i;
    while j < s.len() && find_placeholder(s, j).is_none()
        invariant
            i <= j <= s.len(),
            j + literal_run(s@, j as int) == i + literal_run(s@, i as int),
        decreases s.len() - j,
    {
        j += 1;
    }
    j
}

/// Cuts `s` into its pieces.
pub fn tokenize(s: &str) -> (tokens: Vec<Token>)
    ensures
        token_views(tokens@) == pieces(s@),
{
    let chars = chars_of(s);
    let mut tokens: Vec<Token> = Vec::new();
    let mut i: usize = 0;
    while i < chars.len()
        invariant
            i <= chars.len(),
            chars@ == s@,
            token_views(tokens@) + pieces_from(s@, i as int) == pieces(s@),
        decreases chars.len() - i,
    {
        let ghost before = token_views(tokens@);
        let next: usize;
        let token: Token;
        match find_placeholder(&chars, i) {
            Some(f) => {
                if f.escaped {
                    token = Token::Text(text_of_range(&chars, i + 1, f.end));
                } else {
                    token = Token::Name(text_of_range(&chars, f.name_start, f.name_end));
                }
                next = f.end;
            },
            None => {
                let j = literal_run_end(&chars, i);
                token = Token::Text(text_of_range(&chars, i, j));
                next = j;
            },
        }
        assert(pieces_from(s@, i as int) == seq![token@] + pieces_from(s@, next as int));
        tokens.push(token);
        assert(token_views(tokens@) =~= before + seq![token@]);
        assert(token_views(tokens@) + pieces_from(s@, next as int) =~= before + (seq![token@]
            + pieces_from(s@, next as int)));
        i = next;
    }
    assert(token_views(tokens@) + pieces_from(s@, i as int) =~= token_views(tokens@));
    tokens
}

} // verus!

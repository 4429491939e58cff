use vstd::prelude::*;
use vstd::std_specs::iter::IteratorSpec;
use vstd::string::*;

verus! {

/// How one text stands to another in dictionary order.
#[derive(Clone, Copy, Debug, PartialEq, Eq, Structural)]
pub enum Order {
    Before,
    Same,
    After,
}

/// Dictionary order of two texts, character by character, a character
/// counting by its code point; a proper prefix comes first.
pub open spec fn lex_order(a: Seq<char>, b: Seq<char>) -> Order
    decreases a.len(),
{
    if a.len() == 0 && b.len() == 0 {
        Order::Same
    } else if a.len() == 0 {
        Order::Before
    } else if b.len() == 0 {
        Order::After
    } else if (a[0] as u32) < (b[0] as u32) {
        Order::Before
    } else if (a[0] as u32) > (b[0] as u32) {
        Order::After
    } else {
        lex_order(a.drop_first(), b.drop_first())
    }
}

/// `a` comes strictly before `b`.
pub open spec fn precedes(a: Seq<char>, b: Seq<char>) -> bool {
    lex_order(a, b) == Order::Before
}

/// Different characters have different code points.
pub proof fn lemma_code_point_distinct(c: char, d: char)
    ensures
        (c as u32) == (d as u32) <==> c == d,
{
}

/// Two texts stand as `Same` exactly when they are equal.
pub proof fn lemma_order_same(a: Seq<char>, b: Seq<char>)
    ensures
        lex_order(a, b) == Order::Same <==> a == b,
    decreases a.len(),
{
    if a.len() > 0 && b.len() > 0 {
        lemma_order_same(a.drop_first(), b.drop_first());
        lemma_code_point_distinct(a[0], b[0]);
        if a[0] == b[0] && a.drop_first() == b.drop_first() {
            assert(a =~= seq![a[0]] + a.drop_first());
            assert(b =~= seq![b[0]] + b.drop_first());
        }
    } else if a.len() == 0 && b.len() == 0 {
        assert(a =~= b);
    }
}

/// Swapping the two texts swaps `Before` and `After`.
pub proof fn lemma_order_flip(a: Seq<char>, b: Seq<char>)
    ensures
        lex_order(a, b) == Order::Before <==> lex_order(b, a) == Order::After,
        lex_order(a, b) == Order::After <==> lex_order(b, a) == Order::Before,
        lex_order(a, b) == Order::Same <==> lex_order(b, a) == Order::Same,
    decreases a.len(),
{
    if a.len() > 0 && b.len() > 0 {
        lemma_order_flip(a.drop_first(), b.drop_first());
    }
}

/// `precedes` is transitive.
pub proof fn lemma_precedes_transitive(a: Seq<char>, b: Seq<char>, c: Seq<char>)
    requires
        precedes(a, b),
        precedes(b, c),
    ensures
        precedes(a, c),
    decreases a.len(),
{
    if a.len() > 0 && b.len() > 0 && c.len() > 0 {
        if (a[0] as u32) == (b[0] as u32) && (b[0] as u32) == (c[0] as u32) {
            lemma_precedes_transitive(a.drop_first(), b.drop_first(), c.drop_first());
        }
    }
}

/// Compares two texts in dictionary order.
pub fn order_of(a: &str, b: &str) -> (r: Order)
    ensures
        r == lex_order(a@, b@),
{
    broadcast use group_string_axioms;

    let mut left = a.chars();
    let mut right = b.chars();
    loop
        invariant
            left.obeys_prophetic_iter_laws(),
            right.obeys_prophetic_iter_laws(),
            left.decrease() is Some,
            lex_order(a@, b@) == lex_order(left.remaining(), right.remaining()),
        decreases left.decrease()->0,
    {
        let ghost l0 = left.remaining();
        let ghost r0 = right.remaining();
        let x = left.next();
        let y = right.next();
        match (x, y) {
            (None, None) => {
                return Order::Same;
            },
            (None, Some(_)) => {
                return Order::Before;
            },
            (Some(_), None) => {
                return Order::After;
            },
            (Some(c), Some(d)) => {
                let m: u32 = c as u32;
                let n: u32 = d as u32;
                if m < n {
                    return Order::Before;
                } else if m > n {
                    return Order::After;
                }
                assert(left.remaining() == l0.drop_first());
                assert(right.remaining() == r0.drop_first());
            },
        }
    }
}

/// Whether `a` comes strictly before `b` in dictionary order.
pub fn comes_before(a: &str, b: &str) -> (r: bool)
    ensures
        r == precedes(a@, b@),
{
    match order_of(a, b) {
        Order::Before => true,
        _ => false,
    }
}

/// Whether two texts are equal.
pub fn same_text(a: &str, b: &str) -> (r: bool)
    ensures
        r == (a@ == b@),
{
    proof {
        lemma_order_same(a@, b@);
    }
    match order_of(a, b) {
        Order::Same => true,
        _ => false,
    }
}

/// `String::push`: the text grows by the one character at its end.
#[verifier::external_body]
fn push_char(s: &mut String, c: char)
    ensures
        final(s)@ == old(s)@.push(c),
{
    s.push(c);
}

/// The text made of the characters `v[from..to]`.
pub fn text_of_range(v: &Vec<char>, from: usize, to: usize) -> (out: String)
    requires
        from <= to <= v.len(),
    ensures
        out@ == v@.subrange(from as int, to as int),
{
    let mut out = String::new();
    let mut i: usize = from;
    while i < to
        invariant
            from <= i <= to <= v.len(),
            out@ == v@.subrange(from as int, i as int),
        decreases to - i,
    {
        push_char(&mut out, v[i]);
        i += 1;
        assert(v@.subrange(from as int, i as int) == v@.subrange(from as int, i - 1).push(
            v@[i - 1],
        ));
    }
    out
}

/// The text made of the characters of `v`.
pub fn text_of(v: &Vec<char>) -> (out: String)
    ensures
        out@ == v@,
{
    let out = text_of_range(v, 0, v.len());
    assert(v@.subrange(0, v.len() as int) == v@);
    out
}

/// Appends the characters of `s` to `out`.
pub fn push_text(out: &mut Vec<char>, s: &str)
    ensures
        final(out)@ == old(out)@ + s@,
{
    let mut tail = chars_of(s);
    out.append(&mut tail);
}

/// The characters of `s`, in order.
pub fn chars_of(s: &str) -> (out: Vec<char>)
    ensures
        out@ == s@,
{
    broadcast use group_string_axioms;

    let mut out: Vec<char> = Vec::new();
    let mut it = s.chars();
    loop
        invariant
            it.obeys_prophetic_iter_laws(),
            it.decrease() is Some,
            out@ + it.remaining() == s@,
        decreases it.decrease()->0,
    {
        let ghost before = it;
        match it.next() {
            Some(c) => {
                assert(before.remaining() == seq![c] + it.remaining());
                assert(out@.push(c) + it.remaining() == out@ + before.remaining());
                out.push(c);
            },
            None => {
                assert(it.remaining() =~= Seq::<char>::empty());
                assert(out@ + it.remaining() =~= out@);
                return out;
            },
        }
    }
}

} // verus!

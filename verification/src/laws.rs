use crate::interpolation::{
    context_lookup, expand, lemma_path_grows, render_from, resolve, substitute, top_value,
    Failure, Outcome,
};
use crate::model::{interp_task, TaskModel};
use crate::placeholder::{
    body_at, literal_run, open_run, pieces, pieces_from, placeholder_at, Piece,
};
use vstd::prelude::*;

verus! {

/// Where no dollar sign stands from `i` on, no placeholder starts before the end.
proof fn lemma_literal_to_end(s: Seq<char>, i: int)
    requires
        0 <= i <= s.len(),
        forall|j: int| i <= j < s.len() ==> s[j] != '$',
    ensures
        literal_run(s, i) == s.len() - i,
    decreases s.len() - i,
{
    if i < s.len() {
        lemma_literal_to_end(s, i + 1);
    }
}

/// A text without a dollar sign is interpolated to itself, whatever the values.
pub proof fn law_identity_without_dollar(s: Seq<char>, values: Map<Seq<char>, Seq<char>>)
    requires
        !s.contains('$'),
    ensures
        substitute(s, values) == Ok::<Seq<char>, Failure>(s),
{
    assert forall|j: int| 0 <= j < s.len() implies s[j] != '$' by {
        if s[j] == '$' {
            assert(s.contains('$'));
        }
    }
    let lookup = context_lookup(values);
    if s.len() == 0 {
        assert(pieces(s) =~= Seq::<Piece>::empty());
        assert(s =~= Seq::<char>::empty());
    } else {
        lemma_literal_to_end(s, 0);
        assert(s.subrange(0, s.len() as int) =~= s);
        assert(pieces_from(s, s.len() as int) =~= Seq::<Piece>::empty());
        assert(pieces(s) =~= seq![Piece::Text(s)]);
        assert(render_from(pieces(s), 1, lookup) == Ok::<Seq<char>, Failure>(Seq::empty()));
        assert(s + Seq::<char>::empty() =~= s);
    }
}

/// The characters of a name other than `}` are run through up to the brace
/// that closes it.
proof fn lemma_open_run_name(s: Seq<char>, i: int, n: int)
    requires
        0 <= i,
        0 <= n,
        i + n < s.len(),
        forall|j: int| i <= j < i + n ==> s[j] != '}',
        s[i + n] == '}',
    ensures
        open_run(s, i) == n,
    decreases n,
{
    if n > 0 {
        lemma_open_run_name(s, i + 1, n - 1);
    }
}

/// The text `${name}`.
pub open spec fn braced(name: Seq<char>) -> Seq<char> {
    seq!['$', '{'] + name + seq!['}']
}

/// `$${name}` is interpolated to the text `${name}`: the placeholder is kept
/// and nothing is looked up.
pub proof fn law_escape_keeps_placeholder(name: Seq<char>, values: Map<Seq<char>, Seq<char>>)
    requires
        name.len() >= 1,
        !name.contains('}'),
    ensures
        substitute(seq!['$'] + braced(name), values) == Ok::<Seq<char>, Failure>(braced(name)),
{
    let s = seq!['$'] + braced(name);
    let n = name.len() as int;
    assert(s.len() == n + 4);
    assert forall|j: int| 3 <= j < 3 + n implies s[j] != '}' by {
        assert(s[j] == name[j - 3]);
        if name[j - 3] == '}' {
            assert(name.contains('}'));
        }
    }
    lemma_open_run_name(s, 3, n);
    let p = placeholder_at(s, 0);
    assert(body_at(s, 2) is Some);
    assert(p is Some && p->0.escaped && p->0.len == n + 4);
    assert(s.subrange(1, n + 4) =~= braced(name));
    assert(pieces_from(s, n + 4) =~= Seq::<Piece>::empty());
    assert(pieces(s) =~= seq![Piece::Text(braced(name))]);
    let lookup = context_lookup(values);
    assert(render_from(pieces(s), 1, lookup) == Ok::<Seq<char>, Failure>(Seq::empty()));
    assert(braced(name) + Seq::<char>::empty() =~= braced(name));
}

/// `${name}` alone is interpolated to the value of `name`, and fails where
/// there is none: what an escape has kept is replaced when it is interpolated
/// once more.
pub proof fn law_placeholder_alone(name: Seq<char>, values: Map<Seq<char>, Seq<char>>)
    requires
        name.len() >= 1,
        !name.contains('}'),
    ensures
        substitute(braced(name), values) == if values.contains_key(name) {
            Ok::<Seq<char>, Failure>(values[name])
        } else {
            Err::<Seq<char>, Failure>(Failure::ValueNotFound(name))
        },
{
    let s = braced(name);
    let n = name.len() as int;
    assert(s.len() == n + 3);
    assert forall|j: int| 2 <= j < 2 + n implies s[j] != '}' by {
        assert(s[j] == name[j - 2]);
        if name[j - 2] == '}' {
            assert(name.contains('}'));
        }
    }
    lemma_open_run_name(s, 2, n);
    let p = placeholder_at(s, 0);
    assert(body_at(s, 1) is Some);
    assert(p is Some && !p->0.escaped && p->0.len == n + 3);
    assert(s.subrange(2, n + 2) =~= name);
    assert(pieces_from(s, n + 3) =~= Seq::<Piece>::empty());
    assert(pieces(s) =~= seq![Piece::Name(name)]);
    let lookup = context_lookup(values);
    assert(render_from(pieces(s), 1, lookup) == Ok::<Seq<char>, Failure>(Seq::empty()));
    if values.contains_key(name) {
        assert(values[name] + Seq::<char>::empty() =~= values[name]);
    }
}

/// The raw value of `a` holds a placeholder that names `b`.
pub open spec fn refers_to(store: Map<Seq<char>, Seq<char>>, a: Seq<char>, b: Seq<char>) -> bool {
    store.contains_key(a) && pieces(store[a]).contains(Piece::Name(b))
}

/// Every name that a value refers to is defined.
pub open spec fn closed(store: Map<Seq<char>, Seq<char>>) -> bool {
    forall|a: Seq<char>, b: Seq<char>| #[trigger] refers_to(store, a, b) ==> store.contains_key(b)
}

/// Each key of `c` refers to the key behind it.
pub open spec fn is_chain(store: Map<Seq<char>, Seq<char>>, c: Seq<Seq<char>>) -> bool {
    forall|i: int| 0 <= i < c.len() - 1 ==> refers_to(store, #[trigger] c[i], c[i + 1])
}

/// A chain whose last key refers to its first: a single key that refers to
/// itself is one.
pub open spec fn is_cycle(store: Map<Seq<char>, Seq<char>>, c: Seq<Seq<char>>) -> bool {
    &&& c.len() >= 1
    &&& is_chain(store, c)
    &&& refers_to(store, c.last(), c[0])
}

/// `key` is a member of a reference cycle.
pub open spec fn on_cycle(store: Map<Seq<char>, Seq<char>>, key: Seq<char>) -> bool {
    exists|c: Seq<Seq<char>>| is_cycle(store, c) && c.contains(key)
}

/// Some keys of the store form a reference cycle.
pub open spec fn has_cycle(store: Map<Seq<char>, Seq<char>>) -> bool {
    exists|c: Seq<Seq<char>>| is_cycle(store, c)
}

/// What an error of resolution says of the store.
pub open spec fn failure_is_sound(store: Map<Seq<char>, Seq<char>>, r: Outcome) -> bool {
    match r {
        Err(Failure::CircularReference(n)) => on_cycle(store, n),
        Err(Failure::ValueNotFound(n)) => !store.contains_key(n) && exists|a: Seq<char>|
            refers_to(store, a, n),
        Ok(_) => true,
    }
}

/// An error of `resolve` names a member of a cycle, or a name that a value
/// refers to and that is not defined. `stack` holds the keys of `path` in the
/// order in which they were taken up.
proof fn lemma_resolve_failure(
    store: Map<Seq<char>, Seq<char>>,
    key: Seq<char>,
    path: Set<Seq<char>>,
    stack: Seq<Seq<char>>,
    referrer: Seq<char>,
)
    requires
        store.dom().finite(),
        forall|k: Seq<char>| path.contains(k) <==> stack.contains(k),
        is_chain(store, stack),
        refers_to(store, referrer, key),
        stack.len() > 0 ==> stack.last() == referrer,
    ensures
        failure_is_sound(store, resolve(store, key, path)),
    decreases store.dom().difference(path).len(), 0nat, 0nat,
{
    if path.contains(key) {
        let j = stack.index_of(key);
        assert(0 <= j < stack.len() && stack[j] == key);
        let c = stack.subrange(j, stack.len() as int);
        assert forall|i: int| 0 <= i < c.len() - 1 implies refers_to(
            store,
            #[trigger] c[i],
            c[i + 1],
        ) by {
            assert(c[i] == stack[j + i]);
            assert(c[i + 1] == stack[j + i + 1]);
        }
        assert(c.last() == stack.last());
        assert(c[0] == key);
        assert(is_cycle(store, c) && c.contains(key));
    } else if !store.contains_key(key) {
    } else {
        lemma_path_grows(store.dom(), path, key);
        let stack2 = stack.push(key);
        assert forall|i: int| 0 <= i < stack2.len() - 1 implies refers_to(
            store,
            #[trigger] stack2[i],
            stack2[i + 1],
        ) by {
            if i < stack.len() - 1 {
                assert(stack2[i] == stack[i]);
                assert(stack2[i + 1] == stack[i + 1]);
            }
        }
        assert forall|k: Seq<char>| path.insert(key).contains(k) <==> stack2.contains(k) by {
            if stack.contains(k) {
                let j = stack.index_of(k);
                assert(stack2[j] == k);
            }
            if stack2.contains(k) {
                let j = stack2.index_of(k);
                if j < stack.len() {
                    assert(stack[j] == k);
                }
            }
            assert(stack2[stack.len() as int] == key);
        }
        lemma_expand_failure(store, pieces(store[key]), 0, path.insert(key), stack2, key);
    }
}

/// An error of `expand` names a member of a cycle, or a name that a value
/// refers to and that is not defined.
proof fn lemma_expand_failure(
    store: Map<Seq<char>, Seq<char>>,
    parts: Seq<Piece>,
    i: int,
    path: Set<Seq<char>>,
    stack: Seq<Seq<char>>,
    owner: Seq<char>,
)
    requires
        store.dom().finite(),
        forall|k: Seq<char>| path.contains(k) <==> stack.contains(k),
        is_chain(store, stack),
        store.contains_key(owner),
        parts == pieces(store[owner]),
        stack.len() > 0 ==> stack.last() == owner,
        0 <= i,
    ensures
        failure_is_sound(store, expand(store, parts, i, path)),
    decreases store.dom().difference(path).len(), 1nat, parts.len() - i,
{
    if i < parts.len() {
        lemma_expand_failure(store, parts, i + 1, path, stack, owner);
        match parts[i] {
            Piece::Text(_) => {},
            Piece::Name(n) => {
                assert(parts.contains(Piece::Name(n)));
                lemma_resolve_failure(store, n, path, stack, owner);
            },
        }
    }
}

/// Where a text resolves, each of the names in it does.
proof fn lemma_name_resolves(
    store: Map<Seq<char>, Seq<char>>,
    parts: Seq<Piece>,
    i: int,
    path: Set<Seq<char>>,
    j: int,
)
    requires
        store.dom().finite(),
        0 <= i <= j < parts.len(),
        parts[j] is Name,
        expand(store, parts, i, path) is Ok,
    ensures
        resolve(store, parts[j]->Name_0, path) is Ok,
    decreases j - i,
{
    if i < j {
        lemma_name_resolves(store, parts, i + 1, path, j);
    }
}

/// Following a cycle from key to key comes back to a key of the path: `d`
/// runs through the cycle more than once, and its key `n + 1` is its key 1
/// again.
proof fn lemma_walk(
    store: Map<Seq<char>, Seq<char>>,
    d: Seq<Seq<char>>,
    n: int,
    m: int,
    path: Set<Seq<char>>,
)
    requires
        store.dom().finite(),
        is_chain(store, d),
        1 <= n,
        n + 1 < d.len(),
        d[n + 1] == d[1],
        0 <= m <= n,
        forall|j: int| 1 <= j <= m ==> path.contains(#[trigger] d[j]),
        store.contains_key(d[m]),
    ensures
        expand(store, pieces(store[d[m]]), 0, path) is Err,
    decreases n - m,
{
    let parts = pieces(store[d[m]]);
    let next = d[m + 1];
    assert(refers_to(store, d[m], d[m + 1]));
    let j = parts.index_of(Piece::Name(next));
    assert(0 <= j < parts.len() && parts[j] == Piece::Name(next));
    if expand(store, parts, 0, path) is Ok {
        lemma_name_resolves(store, parts, 0, path, j);
        if m == n {
            assert(path.contains(d[1]));
        } else {
            assert(!path.contains(next));
            assert(store.contains_key(next));
            assert forall|j: int| 1 <= j <= m + 1 implies path.insert(next).contains(
                #[trigger] d[j],
            ) by {}
            lemma_walk(store, d, n, m + 1, path.insert(next));
        }
    }
}

/// The first key of a cycle does not resolve.
pub proof fn law_cycle_does_not_resolve(store: Map<Seq<char>, Seq<char>>, c: Seq<Seq<char>>)
    requires
        store.dom().finite(),
        is_cycle(store, c),
    ensures
        store.contains_key(c[0]),
        top_value(store, c[0]) is Err,
{
    let n = c.len() as int;
    let d = c + c + c;
    assert forall|i: int| 0 <= i < d.len() - 1 implies refers_to(store, #[trigger] d[i], d[i + 1]) by {
        let a = if i < n { i } else if i < 2 * n { i - n } else { i - 2 * n };
        assert(d[i] == c[a]);
        if a < n - 1 {
            assert(d[i + 1] == c[a + 1]);
            assert(refers_to(store, c[a], c[a + 1]));
        } else {
            assert(d[i + 1] == c[0]);
        }
    }
    assert(d[n + 1] == d[1]);
    assert(d[0] == c[0]);
    assert(refers_to(store, c[0], d[1]));
    lemma_walk(store, d, n, 0, Set::empty());
}

/// An error in the value of a key names a member of a reference cycle, or a
/// name that some value refers to and that is not defined.
pub proof fn law_failure_is_sound(store: Map<Seq<char>, Seq<char>>, key: Seq<char>)
    requires
        store.dom().finite(),
        store.contains_key(key),
    ensures
        failure_is_sound(store, top_value(store, key)),
{
    lemma_expand_failure(store, pieces(store[key]), 0, Set::empty(), Seq::empty(), key);
}

/// In a store without a cycle in which every name referred to is defined,
/// every value resolves.
pub proof fn law_acyclic_store_resolves(store: Map<Seq<char>, Seq<char>>, key: Seq<char>)
    requires
        store.dom().finite(),
        closed(store),
        !has_cycle(store),
        store.contains_key(key),
    ensures
        top_value(store, key) is Ok,
{
    law_failure_is_sound(store, key);
}

/// In a store with a reference cycle in which every name referred to is
/// defined, some value does not resolve, and each value that does not resolve
/// fails with a circular reference that names a member of a cycle.
pub proof fn law_cyclic_store_fails(store: Map<Seq<char>, Seq<char>>, key: Seq<char>)
    requires
        store.dom().finite(),
        closed(store),
        has_cycle(store),
    ensures
        exists|k: Seq<char>| store.contains_key(k) && (#[trigger] top_value(store, k)) is Err,
        store.contains_key(key) && top_value(store, key) is Err ==> (top_value(store, key) matches Err(
            Failure::CircularReference(n),
        ) && on_cycle(store, n)),
{
    let c = choose|c: Seq<Seq<char>>| is_cycle(store, c);
    law_cycle_does_not_resolve(store, c);
    if store.contains_key(key) {
        law_failure_is_sound(store, key);
    }
}

/// A value that resolves while the keys of `path` are being resolved
/// resolves to the same text while fewer are.
proof fn lemma_resolve_shrinks(
    store: Map<Seq<char>, Seq<char>>,
    key: Seq<char>,
    path: Set<Seq<char>>,
    smaller: Set<Seq<char>>,
)
    requires
        store.dom().finite(),
        smaller.subset_of(path),
        resolve(store, key, path) is Ok,
    ensures
        resolve(store, key, smaller) == resolve(store, key, path),
    decreases store.dom().difference(path).len(), 0nat, 0nat,
{
    lemma_path_grows(store.dom(), path, key);
    lemma_expand_shrinks(store, pieces(store[key]), 0, path.insert(key), smaller.insert(key));
}

/// A text that resolves while the keys of `path` are being resolved resolves
/// to the same text while fewer are.
proof fn lemma_expand_shrinks(
    store: Map<Seq<char>, Seq<char>>,
    parts: Seq<Piece>,
    i: int,
    path: Set<Seq<char>>,
    smaller: Set<Seq<char>>,
)
    requires
        store.dom().finite(),
        smaller.subset_of(path),
        expand(store, parts, i, path) is Ok,
    ensures
        expand(store, parts, i, smaller) == expand(store, parts, i, path),
    decreases store.dom().difference(path).len(), 1nat, parts.len() - i,
{
    if 0 <= i < parts.len() {
        lemma_expand_shrinks(store, parts, i + 1, path, smaller);
        match parts[i] {
            Piece::Text(_) => {},
            Piece::Name(n) => {
                lemma_resolve_shrinks(store, n, path, smaller);
            },
        }
    }
}

/// Joining the pieces with the resolved values gives what following the
/// references gives.
proof fn lemma_render_agrees(
    store: Map<Seq<char>, Seq<char>>,
    values: Map<Seq<char>, Seq<char>>,
    parts: Seq<Piece>,
    i: int,
)
    requires
        store.dom().finite(),
        forall|k: Seq<char>|
            store.contains_key(k) ==> values.contains_key(k) && #[trigger] top_value(store, k)
                == Ok::<Seq<char>, Failure>(values[k]),
        expand(store, parts, i, Set::empty()) is Ok,
    ensures
        render_from(parts, i, context_lookup(values)) == expand(store, parts, i, Set::empty()),
    decreases parts.len() - i,
{
    if 0 <= i < parts.len() {
        lemma_render_agrees(store, values, parts, i + 1);
        match parts[i] {
            Piece::Text(_) => {},
            Piece::Name(n) => {
                let none = Set::<Seq<char>>::empty();
                assert(resolve(store, n, none) is Ok);
                assert(store.contains_key(n));
                lemma_expand_shrinks(store, pieces(store[n]), 0, none.insert(n), none);
                assert(top_value(store, n) == resolve(store, n, none));
            },
        }
    }
}

/// The resolved values answer their own definitions: each is its raw value
/// with every placeholder replaced by the resolved value of its name, so that
/// no placeholder of a raw value is left unresolved.
pub proof fn law_context_is_fixpoint(
    store: Map<Seq<char>, Seq<char>>,
    values: Map<Seq<char>, Seq<char>>,
    key: Seq<char>,
)
    requires
        store.dom().finite(),
        forall|k: Seq<char>|
            store.contains_key(k) ==> values.contains_key(k) && #[trigger] top_value(store, k)
                == Ok::<Seq<char>, Failure>(values[k]),
        store.contains_key(key),
    ensures
        substitute(store[key], values) == Ok::<Seq<char>, Failure>(values[key]),
{
    assert(top_value(store, key) is Ok);
    lemma_render_agrees(store, values, pieces(store[key]), 0);
}

/// No text piece holds a dollar sign.
pub open spec fn texts_dollar_free(parts: Seq<Piece>) -> bool {
    forall|i: int|
        0 <= i < parts.len() ==> ((#[trigger] parts[i]) matches Piece::Text(t) ==> !t.contains('$'))
}

/// Every dollar sign of every raw value starts a placeholder that is not escaped.
pub open spec fn plain_store(store: Map<Seq<char>, Seq<char>>) -> bool {
    forall|k: Seq<char>| #[trigger] store.contains_key(k) ==> texts_dollar_free(pieces(store[k]))
}

/// Two texts without a dollar sign, joined, hold none.
proof fn lemma_join_dollar_free(a: Seq<char>, b: Seq<char>)
    requires
        !a.contains('$'),
        !b.contains('$'),
    ensures
        !(a + b).contains('$'),
{
    if (a + b).contains('$') {
        let j = (a + b).index_of('$');
        assert(0 <= j < (a + b).len() && (a + b)[j] == '$');
        if j < a.len() {
            assert(a[j] == '$');
        } else {
            assert(b[j - a.len()] == '$');
        }
    }
}

/// In a plain store a value that resolves holds no dollar sign.
proof fn lemma_resolve_dollar_free(
    store: Map<Seq<char>, Seq<char>>,
    key: Seq<char>,
    path: Set<Seq<char>>,
)
    requires
        store.dom().finite(),
        plain_store(store),
        resolve(store, key, path) is Ok,
    ensures
        !resolve(store, key, path)->Ok_0.contains('$'),
    decreases store.dom().difference(path).len(), 0nat, 0nat,
{
    lemma_path_grows(store.dom(), path, key);
    assert(store.contains_key(key));
    lemma_expand_dollar_free(store, pieces(store[key]), 0, path.insert(key));
}

/// In a plain store a text whose own pieces hold no dollar sign resolves to
/// a text that holds none.
proof fn lemma_expand_dollar_free(
    store: Map<Seq<char>, Seq<char>>,
    parts: Seq<Piece>,
    i: int,
    path: Set<Seq<char>>,
)
    requires
        store.dom().finite(),
        plain_store(store),
        texts_dollar_free(parts),
        expand(store, parts, i, path) is Ok,
    ensures
        !expand(store, parts, i, path)->Ok_0.contains('$'),
    decreases store.dom().difference(path).len(), 1nat, parts.len() - i,
{
    if 0 <= i < parts.len() {
        lemma_expand_dollar_free(store, parts, i + 1, path);
        let rest = expand(store, parts, i + 1, path)->Ok_0;
        match parts[i] {
            Piece::Text(t) => {
                lemma_join_dollar_free(t, rest);
            },
            Piece::Name(n) => {
                lemma_resolve_dollar_free(store, n, path);
                lemma_join_dollar_free(resolve(store, n, path)->Ok_0, rest);
            },
        }
    } else {
        let e = Seq::<char>::empty();
        if e.contains('$') {
            let j = e.index_of('$');
            assert(0 <= j < e.len());
        }
    }
}

/// Where every dollar sign of every raw value starts a placeholder that is
/// not escaped, a resolved value holds no dollar sign, and so no placeholder.
pub proof fn law_resolved_value_is_plain(store: Map<Seq<char>, Seq<char>>, key: Seq<char>)
    requires
        store.dom().finite(),
        plain_store(store),
        store.contains_key(key),
        top_value(store, key) is Ok,
    ensures
        !top_value(store, key)->Ok_0.contains('$'),
        forall|i: int| placeholder_at(top_value(store, key)->Ok_0, i) is None,
{
    lemma_expand_dollar_free(store, pieces(store[key]), 0, Set::empty());
    let v = top_value(store, key)->Ok_0;
    assert forall|i: int| placeholder_at(v, i) is None by {
        if 0 <= i < v.len() && v[i] == '$' {
            assert(v.contains('$'));
        }
    }
}

/// Interpolating a task changes none of what is no text of its author: the
/// method, the description, and the flags and numbers of its configuration
/// stay, and so does whether it has credentials and a configuration.
pub proof fn law_task_keeps_what_is_no_text(t: TaskModel, values: Map<Seq<char>, Seq<char>>)
    requires
        interp_task(t, values) is Ok,
    ensures
        ({
            let r = interp_task(t, values)->Ok_0;
            &&& r.target.method == t.target.method
            &&& r.description == t.description
            &&& r.auth is Some <==> t.auth is Some
            &&& r.config is Some <==> t.config is Some
            &&& t.config is Some ==> {
                &&& r.config->0.insecure == t.config->0.insecure
                &&& r.config->0.redirect == t.config->0.redirect
                &&& r.config->0.env_file == t.config->0.env_file
            }
        }),
{
}

} // verus!

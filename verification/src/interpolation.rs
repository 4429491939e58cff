use crate::laws::{
    closed, failure_is_sound, has_cycle, is_cycle, law_context_is_fixpoint,
    law_cycle_does_not_resolve, law_failure_is_sound, law_identity_without_dollar,
    law_resolved_value_is_plain, on_cycle, plain_store,
};
use crate::placeholder::{pieces, placeholder_at, token_views, tokenize, Piece, Token};
use crate::strmap::{lemma_ascending_distinct, StrMap};
use vstd::prelude::*;
use vstd::string::StringExecFns;

verus! {

/// Why a text could not be interpolated, over plain texts.
pub enum Failure {
    /// A placeholder names a value that is not defined.
    ValueNotFound(Seq<char>),
    /// A value refers to itself, directly or through other values.
    CircularReference(Seq<char>),
}

/// Why a text could not be interpolated.
#[derive(Debug, PartialEq, Eq)]
pub enum InterpError {
    ValueNotFound(String),
    CircularReference(String),
}

impl View for InterpError {
    type V = Failure;

    open spec fn view(&self) -> Failure {
        match self {
            InterpError::ValueNotFound(n) => Failure::ValueNotFound(n@),
            InterpError::CircularReference(n) => Failure::CircularReference(n@),
        }
    }
}

impl InterpError {
    /// The error as a sentence that names the value.
    pub fn message(&self) -> (m: String)
        ensures
            m@ == match self {
                InterpError::ValueNotFound(n) => "value named \""@ + n@ + "\" not defined"@,
                InterpError::CircularReference(n) => "found circular reference in \""@ + n@
                    + "\""@,
            },
    {
        match self {
            InterpError::ValueNotFound(n) => {
                let mut m = String::from_str("value named \"");
                m.append(n.as_str());
                m.append("\" not defined");
                m
            },
            InterpError::CircularReference(n) => {
                let mut m = String::from_str("found circular reference in \"");
                m.append(n.as_str());
                m.append("\"");
                m
            },
        }
    }
}

/// The text that interpolation gives, or why it gives none.
pub type Outcome = Result<Seq<char>, Failure>;

/// What a function that returns a text or an error stands for.
pub open spec fn outcome(r: Result<String, InterpError>) -> Outcome {
    match r {
        Ok(s) => Ok(s@),
        Err(e) => Err(e@),
    }
}

/// `head` before the text of `rest`; an error stays as it is.
pub open spec fn followed_by(head: Seq<char>, rest: Outcome) -> Outcome {
    match rest {
        Ok(tail) => Ok(head + tail),
        Err(e) => Err(e),
    }
}

/// The pieces from position `i` on, joined: a text piece as it stands, a name
/// replaced by what `lookup` gives for it. The first name, from the left, for
/// which `lookup` fails decides the error.
pub open spec fn render_from(
    parts: Seq<Piece>,
    i: int,
    lookup: spec_fn(Seq<char>) -> Outcome,
) -> Outcome
    decreases parts.len() - i,
{
    if !(0 <= i < parts.len()) {
        Ok(Seq::empty())
    } else {
        match parts[i] {
            Piece::Text(t) => followed_by(t, render_from(parts, i + 1, lookup)),
            Piece::Name(n) => match lookup(n) {
                Ok(v) => followed_by(v, render_from(parts, i + 1, lookup)),
                Err(e) => Err(e),
            },
        }
    }
}

/// Looking a name up among resolved values.
pub open spec fn context_lookup(values: Map<Seq<char>, Seq<char>>) -> spec_fn(Seq<char>) -> Outcome {
    |n: Seq<char>|
        if values.contains_key(n) {
            Ok(values[n])
        } else {
            Err(Failure::ValueNotFound(n))
        }
}

/// `s` with each placeholder replaced by the value that `values` holds under
/// its name, and all other text kept.
pub open spec fn substitute(s: Seq<char>, values: Map<Seq<char>, Seq<char>>) -> Outcome {
    render_from(pieces(s), 0, context_lookup(values))
}

/// The texts that a map of strings holds.
pub open spec fn text_map(m: Map<Seq<char>, String>) -> Map<Seq<char>, Seq<char>> {
    Map::new(|k: Seq<char>| m.contains_key(k), |k: Seq<char>| m[k]@)
}

/// The resolved values, by name.
pub struct InterpContext(pub(crate) StrMap<String>);

impl View for InterpContext {
    type V = Map<Seq<char>, Seq<char>>;

    closed spec fn view(&self) -> Map<Seq<char>, Seq<char>> {
        text_map(self.0@)
    }
}

impl InterpContext {
    /// The resolved value of `name`, if the context holds one.
    pub fn get(&self, name: &str) -> (r: Option<&String>)
        ensures
            match r {
                Some(v) => self@.contains_key(name@) && v@ == self@[name@],
                None => !self@.contains_key(name@),
            },
    {
        self.0.get(name)
    }

    /// The number of values.
    pub fn len(&self) -> (n: usize)
        ensures
            n == self@.dom().len(),
            self@.dom().finite(),
    {
        let n = self.0.len();
        proof {
            self.0.lemma_dom();
            assert(self@.dom() =~= self.0@.dom());
        }
        n
    }
}

/// Moving one piece from the rest to the text that is already built.
pub proof fn lemma_render_step(
    parts: Seq<Piece>,
    i: int,
    lookup: spec_fn(Seq<char>) -> Outcome,
    done: Seq<char>,
    piece: Seq<char>,
)
    requires
        0 <= i < parts.len(),
        match parts[i] {
            Piece::Text(t) => piece == t,
            Piece::Name(n) => lookup(n) == Ok::<Seq<char>, Failure>(piece),
        },
    ensures
        followed_by(done + piece, render_from(parts, i + 1, lookup)) == followed_by(
            done,
            render_from(parts, i, lookup),
        ),
{
    match render_from(parts, i + 1, lookup) {
        Ok(tail) => {
            assert((done + piece) + tail =~= done + (piece + tail));
        },
        Err(_) => {},
    }
}

/// Replaces each placeholder of `s` by the value that `ctxt` holds under its
/// name; `$$` before a placeholder keeps it as text, without the first `$`.
/// All other text is kept: a text without `$` comes back as it is.
pub fn interpolate(s: &str, ctxt: &InterpContext) -> (r: Result<String, InterpError>)
    ensures
        outcome(r) == substitute(s@, ctxt@),
        !s@.contains('$') ==> (r matches Ok(t) && t@ == s@),
{
    proof {
        if !s@.contains('$') {
            law_identity_without_dollar(s@, ctxt@);
        }
    }
    let tokens = tokenize(s);
    let ghost parts = pieces(s@);
    let ghost lookup = context_lookup(ctxt@);
    let mut out = String::new();
    let mut i: usize = 0;
    while i < tokens.len()
        invariant
            i <= tokens.len(),
            token_views(tokens@) == parts,
            parts == pieces(s@),
            lookup == context_lookup(ctxt@),
            !s@.contains('$') ==> substitute(s@, ctxt@) == Ok::<Seq<char>, Failure>(s@),
            followed_by(out@, render_from(parts, i as int, lookup)) == render_from(
                parts,
                0,
                lookup,
            ),
        decreases tokens.len() - i,
    {
        assert(parts[i as int] == tokens@[i as int]@);
        match &tokens[i] {
            Token::Text(t) => {
                proof {
                    lemma_render_step(parts, i as int, lookup, out@, t@);
                }
                out.append(t.as_str());
            },
            Token::Name(n) => {
                match ctxt.get(n.as_str()) {
                    Some(v) => {
                        proof {
                            lemma_render_step(parts, i as int, lookup, out@, v@);
                        }
                        out.append(v.as_str());
                    },
                    None => {
                        let e = InterpError::ValueNotFound(n.clone());
                        assert(lookup(n@) == Err::<Seq<char>, Failure>(e@));
                        assert(render_from(parts, i as int, lookup) == Err::<Seq<char>, Failure>(
                            e@,
                        ));
                        return Err(e);
                    },
                }
            },
        }
        i += 1;
    }
    assert(out@ + Seq::<char>::empty() =~= out@);
    Ok(out)
}

/// Taking one more key into the path leaves fewer keys outside it.
pub proof fn lemma_path_grows(dom: Set<Seq<char>>, path: Set<Seq<char>>, key: Seq<char>)
    requires
        dom.finite(),
        dom.contains(key),
        !path.contains(key),
    ensures
        dom.difference(path.insert(key)).len() < dom.difference(path).len(),
{
    let d = dom.difference(path);
    vstd::set_lib::lemma_len_difference(dom, path);
    assert(d.finite());
    assert(d.contains(key));
    assert(dom.difference(path.insert(key)) =~= d.remove(key));
}

/// The value of `key` in `store`, with every reference followed to its end,
/// while the keys of `path` are being resolved: a key of `path` is a circular
/// reference, a key that `store` lacks is not found.
pub open spec fn resolve(
    store: Map<Seq<char>, Seq<char>>,
    key: Seq<char>,
    path: Set<Seq<char>>,
) -> Outcome
    decreases store.dom().difference(path).len(), 0nat, 0nat,
    when store.dom().finite()
{
    if path.contains(key) {
        Err(Failure::CircularReference(key))
    } else if !store.contains_key(key) {
        Err(Failure::ValueNotFound(key))
    } else {
        proof {
            lemma_path_grows(store.dom(), path, key);
        }
        expand(store, pieces(store[key]), 0, path.insert(key))
    }
}

/// The pieces from position `i` on, joined, each name replaced by its value
/// in `store` as `resolve` gives it.
pub open spec fn expand(
    store: Map<Seq<char>, Seq<char>>,
    parts: Seq<Piece>,
    i: int,
    path: Set<Seq<char>>,
) -> Outcome
    decreases store.dom().difference(path).len(), 1nat, parts.len() - i,
    when store.dom().finite()
{
    if !(0 <= i < parts.len()) {
        Ok(Seq::empty())
    } else {
        match parts[i] {
            Piece::Text(t) => followed_by(t, expand(store, parts, i + 1, path)),
            Piece::Name(n) => match resolve(store, n, path) {
                Ok(v) => followed_by(v, expand(store, parts, i + 1, path)),
                Err(e) => Err(e),
            },
        }
    }
}

/// The value of the raw text that `store` holds under `key`, resolved on its own.
pub open spec fn top_value(store: Map<Seq<char>, Seq<char>>, key: Seq<char>) -> Outcome {
    expand(store, pieces(store[key]), 0, Set::empty())
}

/// The context of a store whose values all resolve: each key with its value.
pub open spec fn context_of(store: Map<Seq<char>, Seq<char>>) -> Map<Seq<char>, Seq<char>> {
    Map::new(|k: Seq<char>| store.contains_key(k), |k: Seq<char>| top_value(store, k)->Ok_0)
}

/// The context of `store`, or the error of the first of `keys`, from position
/// `i` on, whose value does not resolve.
pub open spec fn resolve_all(store: Map<Seq<char>, Seq<char>>, keys: Seq<Seq<char>>, i: int) -> Result<
    Map<Seq<char>, Seq<char>>,
    Failure,
>
    decreases keys.len() - i,
{
    if !(0 <= i < keys.len()) {
        Ok(context_of(store))
    } else {
        match top_value(store, keys[i]) {
            Err(e) => Err(e),
            Ok(_) => resolve_all(store, keys, i + 1),
        }
    }
}

/// What a function that returns a context or an error stands for.
pub open spec fn context_outcome(r: Result<InterpContext, InterpError>) -> Result<
    Map<Seq<char>, Seq<char>>,
    Failure,
> {
    match r {
        Ok(c) => Ok(c@),
        Err(e) => Err(e@),
    }
}

/// How far the resolution of one key has come.
#[derive(Debug, PartialEq, Eq)]
pub enum Delay {
    NotStarted,
    Pending,
    Done(String),
}

/// How many entries have not been started.
pub open spec fn not_started(states: Seq<Delay>) -> nat
    decreases states.len(),
{
    if states.len() == 0 {
        0
    } else {
        not_started(states.drop_last()) + if states.last() is NotStarted {
            1nat
        } else {
            0nat
        }
    }
}

/// The state of `key`, where `states[i]` belongs to `keys[i]`.
pub open spec fn state_of(keys: Seq<Seq<char>>, states: Seq<Delay>, key: Seq<char>) -> Delay {
    states[keys.index_of(key)]
}

/// The keys that are being resolved.
pub open spec fn pending_keys(keys: Seq<Seq<char>>, states: Seq<Delay>) -> Set<Seq<char>> {
    Set::new(|k: Seq<char>| keys.contains(k) && state_of(keys, states, k) is Pending)
}

/// The keys whose value is known.
pub open spec fn done_keys(keys: Seq<Seq<char>>, states: Seq<Delay>) -> Set<Seq<char>> {
    Set::new(|k: Seq<char>| keys.contains(k) && state_of(keys, states, k) is Done)
}

/// Every value that was known is still known, and is the same.
pub open spec fn done_kept(before: Seq<Delay>, after: Seq<Delay>) -> bool {
    &&& before.len() == after.len()
    &&& forall|i: int|
        0 <= i < before.len() && (#[trigger] before[i]) is Done ==> after[i] == before[i]
}

/// `value` is the value of `key` whatever is being resolved, as long as none
/// of the keys of `done` is.
pub open spec fn settled(
    store: Map<Seq<char>, Seq<char>>,
    done: Set<Seq<char>>,
    key: Seq<char>,
    value: Seq<char>,
) -> bool {
    forall|path: Set<Seq<char>>|
        path.disjoint(done) ==> #[trigger] resolve(store, key, path) == Ok::<Seq<char>, Failure>(
            value,
        )
}

/// `out`, then the pieces from `i` on, is the whole text, whatever is being
/// resolved, as long as none of the keys of `done` is.
pub open spec fn built(
    store: Map<Seq<char>, Seq<char>>,
    done: Set<Seq<char>>,
    parts: Seq<Piece>,
    i: int,
    out: Seq<char>,
) -> bool {
    forall|path: Set<Seq<char>>|
        path.disjoint(done) ==> followed_by(out, #[trigger] expand(store, parts, i, path))
            == expand(store, parts, 0, path)
}

/// What has been resolved so far: one state for each key of a store.
pub struct ResolveCache {
    states: Vec<Delay>,
}

impl ResolveCache {
    /// The states, each at the position of its key.
    pub closed spec fn states(&self) -> Seq<Delay> {
        self.states@
    }

    /// The keys of `store` that are being resolved.
    pub open spec fn pending(&self, store: &StrMap<String>) -> Set<Seq<char>> {
        pending_keys(store.keys(), self.states())
    }

    /// The keys of `store` whose value is known.
    pub open spec fn done(&self, store: &StrMap<String>) -> Set<Seq<char>> {
        done_keys(store.keys(), self.states())
    }

    /// The cache belongs to `store`: it has a state for each key, and a value
    /// that it holds is the value of its key.
    pub open spec fn consistent(&self, store: &StrMap<String>) -> bool {
        &&& store.wf()
        &&& self.states().len() == store.keys().len()
        &&& forall|i: int|
            0 <= i < store.keys().len() ==> ((#[trigger] self.states()[i]) matches Delay::Done(v)
                ==> settled(text_map(store@), self.done(store), store.keys()[i], v@))
    }

    /// A cache for `store` in which nothing has been started.
    pub fn new(store: &StrMap<String>) -> (cache: Self)
        ensures
            cache.consistent(store),
            cache.pending(store) == Set::<Seq<char>>::empty(),
            cache.done(store) == Set::<Seq<char>>::empty(),
    {
        let n = store.len();
        let mut states: Vec<Delay> = Vec::new();
        let mut i: usize = 0;
        while i < n
            invariant
                i <= n,
                states@.len() == i,
                forall|j: int| 0 <= j < i ==> states@[j] is NotStarted,
            decreases n - i,
        {
            states.push(Delay::NotStarted);
            i += 1;
        }
        let cache = ResolveCache { states };
        assert(cache.pending(store) =~= Set::<Seq<char>>::empty());
        assert(cache.done(store) =~= Set::<Seq<char>>::empty());
        cache
    }
}

/// Changing one state changes the number of entries not started by what that
/// state counts for.
pub proof fn lemma_not_started_update(states: Seq<Delay>, i: int, d: Delay)
    requires
        0 <= i < states.len(),
    ensures
        not_started(states.update(i, d)) + (if states[i] is NotStarted {
            1nat
        } else {
            0nat
        }) == not_started(states) + (if d is NotStarted {
            1nat
        } else {
            0nat
        }),
    decreases states.len(),
{
    let after = states.update(i, d);
    if i == states.len() - 1 {
        assert(after.drop_last() =~= states.drop_last());
    } else {
        lemma_not_started_update(states.drop_last(), i, d);
        assert(after.drop_last() =~= states.drop_last().update(i, d));
    }
}

/// What changing the state of one key does to the keys that are pending and done.
proof fn lemma_state_change(keys: Seq<Seq<char>>, states: Seq<Delay>, i: int, d: Delay)
    requires
        crate::strmap::ascending(keys),
        keys.len() == states.len(),
        0 <= i < keys.len(),
    ensures
        state_of(keys, states, keys[i]) == states[i],
        pending_keys(keys, states.update(i, d)) == if d is Pending {
            pending_keys(keys, states).insert(keys[i])
        } else {
            pending_keys(keys, states).remove(keys[i])
        },
        done_keys(keys, states.update(i, d)) == if d is Done {
            done_keys(keys, states).insert(keys[i])
        } else {
            done_keys(keys, states).remove(keys[i])
        },
        forall|j: int| 0 <= j < keys.len() && j != i ==> keys[j] != keys[i],
{
    lemma_ascending_distinct(keys, i);
    let after = states.update(i, d);
    assert forall|j: int| 0 <= j < keys.len() && j != i implies keys[j] != keys[i] by {
        lemma_ascending_distinct(keys, j);
    }
    assert forall|k: Seq<char>| keys.contains(k) && k != keys[i] implies state_of(keys, after, k)
        == state_of(keys, states, k) by {
        let j = keys.index_of(k);
        assert(keys[j] == k);
    }
    assert(pending_keys(keys, after) =~= if d is Pending {
        pending_keys(keys, states).insert(keys[i])
    } else {
        pending_keys(keys, states).remove(keys[i])
    });
    assert(done_keys(keys, after) =~= if d is Done {
        done_keys(keys, states).insert(keys[i])
    } else {
        done_keys(keys, states).remove(keys[i])
    });
}

/// The value of `key` in `map`, with its references followed; `cache` keeps
/// what has been resolved, and tells a reference that comes back to a key
/// that is being resolved.
///
/// A key that is being resolved, a key that the map lacks and a key whose
/// value is known leave the cache as it is. Else the value of the key is
/// known afterwards, and the same keys are being resolved. A value that was
/// known stays known, also where the key does not resolve.
pub fn getter_with_cache(key: &str, map: &StrMap<String>, cache: &mut ResolveCache) -> (r: Result<
    String,
    InterpError,
>)
    requires
        old(cache).consistent(map),
    ensures
        outcome(r) == resolve(text_map(map@), key@, old(cache).pending(map)),
        old(cache).pending(map).contains(key@) || !map@.contains_key(key@) ==> final(cache).states()
            == old(cache).states(),
        old(cache).done(map).contains(key@) ==> final(cache).states() == old(cache).states(),
        done_kept(old(cache).states(), final(cache).states()),
        r matches Ok(v) ==> {
            &&& final(cache).consistent(map)
            &&& final(cache).pending(map) == old(cache).pending(map)
            &&& old(cache).done(map).subset_of(final(cache).done(map))
            &&& state_of(map.keys(), final(cache).states(), key@) == Delay::Done(v)
            &&& not_started(final(cache).states()) <= not_started(old(cache).states())
            &&& settled(text_map(map@), final(cache).done(map), key@, v@)
        },
    decreases not_started(old(cache).states()), 0nat,
{
    let ghost store = text_map(map@);
    let ghost keys = map.keys();
    let ghost states0 = cache.states();
    let ghost pending0 = cache.pending(map);
    let ghost done0 = cache.done(map);
    proof {
        map.lemma_dom();
        assert(store.dom() =~= map@.dom());
    }
    let i = match map.find(key) {
        Some(i) => i,
        None => {
            return Err(InterpError::ValueNotFound(key.to_owned()));
        },
    };
    proof {
        lemma_state_change(keys, states0, i as int, Delay::Pending);
    }
    match &cache.states[i] {
        Delay::Pending => {
            return Err(InterpError::CircularReference(key.to_owned()));
        },
        Delay::Done(v) => {
            let v = v.clone();
            assert(pending0.disjoint(done0));
            return Ok(v);
        },
        Delay::NotStarted => {},
    }
    cache.states.set(i, Delay::Pending);
    proof {
        lemma_not_started_update(states0, i as int, Delay::Pending);
        assert(cache.done(map) == done0.remove(key@));
        assert(cache.done(map) =~= done0);
        assert(cache.states() == states0.update(i as int, Delay::Pending));
    }
    let raw = map.value_at(i);
    assert(store[key@] == raw@);
    let r = resolve_text(raw.as_str(), map, cache);
    match r {
        Err(e) => {
            proof {
                assert forall|j: int|
                    0 <= j < states0.len() && (#[trigger] states0[j]) is Done implies cache.states()[j]
                    == states0[j] by {
                    assert(states0.update(i as int, Delay::Pending)[j] == states0[j]);
                }
            }
            Err(e)
        },
        Ok(v) => {
            let ghost states1 = cache.states();
            let ghost done1 = cache.done(map);
            proof {
                lemma_state_change(keys, states1, i as int, Delay::Done(v));
                lemma_not_started_update(states1, i as int, Delay::Done(v));
                assert(pending0.insert(key@).contains(key@));
                assert(states1[i as int] is Pending);
            }
            let out = v.clone();
            cache.states.set(i, Delay::Done(v));
            proof {
                let done2 = cache.done(map);
                let states2 = cache.states();
                assert(states2 == states1.update(i as int, Delay::Done(out)));
                lemma_state_change(keys, states2, i as int, Delay::Pending);
                assert(state_of(keys, states2, key@) == Delay::Done(out));
                assert(done_kept(states0, states2)) by {
                    assert forall|j: int|
                        0 <= j < states0.len() && (#[trigger] states0[j]) is Done implies states2[j]
                        == states0[j] by {
                        assert(j != i as int);
                        assert(states0.update(i as int, Delay::Pending)[j] == states0[j]);
                    }
                }
                assert(done2 == done1.insert(key@));
                assert(cache.pending(map) =~= pending0);
                assert(!done1.contains(key@));
                assert forall|path: Set<Seq<char>>| path.disjoint(done2) implies #[trigger] resolve(
                    store,
                    key@,
                    path,
                ) == Ok::<Seq<char>, Failure>(out@) by {
                    assert(!path.contains(key@));
                    assert(path.insert(key@).disjoint(done1));
                    assert(store.dom().finite());
                    assert(store.contains_key(key@));
                    assert(expand(store, pieces(raw@), 0, path.insert(key@)) == Ok::<
                        Seq<char>,
                        Failure,
                    >(out@));
                }
                assert forall|j: int| 0 <= j < keys.len() implies ((
                #[trigger] cache.states()[j]) matches Delay::Done(w) ==> settled(
                    store,
                    done2,
                    keys[j],
                    w@,
                )) by {
                    if j != i as int {
                        if let Delay::Done(w) = cache.states()[j] {
                            assert(states1[j] == cache.states()[j]);
                            assert(settled(store, done1, keys[j], w@));
                        }
                    }
                }
            }
            Ok(out)
        },
    }
}

/// `s` with each placeholder replaced by the value of its name in `map`, its
/// references followed; `cache` keeps what has been resolved. A value that
/// was known stays known, and where `s` resolves the same keys are being
/// resolved afterwards.
pub fn resolve_text(s: &str, map: &StrMap<String>, cache: &mut ResolveCache) -> (r: Result<
    String,
    InterpError,
>)
    requires
        old(cache).consistent(map),
    ensures
        outcome(r) == expand(text_map(map@), pieces(s@), 0, old(cache).pending(map)),
        done_kept(old(cache).states(), final(cache).states()),
        r matches Ok(v) ==> {
            &&& final(cache).consistent(map)
            &&& final(cache).pending(map) == old(cache).pending(map)
            &&& old(cache).done(map).subset_of(final(cache).done(map))
            &&& not_started(final(cache).states()) <= not_started(old(cache).states())
            &&& built(text_map(map@), final(cache).done(map), pieces(s@), 0, Seq::empty())
            &&& forall|path: Set<Seq<char>>|
                path.disjoint(final(cache).done(map)) ==> #[trigger] expand(
                    text_map(map@),
                    pieces(s@),
                    0,
                    path,
                ) == Ok::<Seq<char>, Failure>(v@)
        },
    decreases not_started(old(cache).states()), 1nat,
{
    let ghost store = text_map(map@);
    let ghost keys = map.keys();
    let ghost pending0 = cache.pending(map);
    let ghost done0 = cache.done(map);
    let ghost count0 = not_started(cache.states());
    let ghost parts = pieces(s@);
    proof {
        map.lemma_dom();
        assert(store.dom() =~= map@.dom());
    }
    let tokens = tokenize(s);
    let mut out = String::new();
    let mut i: usize = 0;
    proof {
        assert forall|path: Set<Seq<char>>| path.disjoint(done0) implies followed_by(
            out@,
            #[trigger] expand(store, parts, 0, path),
        ) == expand(store, parts, 0, path) by {
            match expand(store, parts, 0, path) {
                Ok(t) => {
                    assert(out@ + t =~= t);
                },
                Err(_) => {},
            }
        }
    }
    while i < tokens.len()
        invariant
            i <= tokens.len(),
            token_views(tokens@) == parts,
            parts == pieces(s@),
            store == text_map(map@),
            store.dom().finite(),
            cache.consistent(map),
            cache.pending(map) == pending0,
            pending0 == old(cache).pending(map),
            done0 == old(cache).done(map),
            done0.subset_of(cache.done(map)),
            done_kept(old(cache).states(), cache.states()),
            not_started(cache.states()) <= count0,
            count0 == not_started(old(cache).states()),
            built(store, cache.done(map), parts, i as int, out@),
        decreases tokens.len() - i,
    {
        assert(parts[i as int] == tokens@[i as int]@);
        let ghost done1 = cache.done(map);
        let ghost out1 = out@;
        let ghost piece: Seq<char>;
        match &tokens[i] {
            Token::Text(t) => {
                out.append(t.as_str());
                proof {
                    piece = t@;
                    assert forall|path: Set<Seq<char>>| true implies #[trigger] expand(
                        store,
                        parts,
                        i as int,
                        path,
                    ) == followed_by(piece, expand(store, parts, i + 1, path)) by {}
                }
            },
            Token::Name(n) => {
                match getter_with_cache(n.as_str(), map, cache) {
                    Ok(v) => {
                        out.append(v.as_str());
                        proof {
                            piece = v@;
                            assert forall|path: Set<Seq<char>>|
                                path.disjoint(cache.done(map)) implies #[trigger] expand(
                                store,
                                parts,
                                i as int,
                                path,
                            ) == followed_by(piece, expand(store, parts, i + 1, path)) by {
                                assert(resolve(store, n@, path) == Ok::<Seq<char>, Failure>(v@));
                            }
                        }
                    },
                    Err(e) => {
                        proof {
                            lemma_pending_not_done(keys, cache.states());
                            assert(pending0.disjoint(done1));
                            assert(expand(store, parts, i as int, pending0) == Err::<
                                Seq<char>,
                                Failure,
                            >(e@));
                        }
                        return Err(e);
                    },
                }
            },
        }
        proof {
            let done2 = cache.done(map);
            assert forall|path: Set<Seq<char>>| path.disjoint(done2) implies followed_by(
                out@,
                #[trigger] expand(store, parts, i + 1, path),
            ) == expand(store, parts, 0, path) by {
                assert(path.disjoint(done1));
                let rest = expand(store, parts, i + 1, path);
                assert(expand(store, parts, i as int, path) == followed_by(piece, rest));
                match rest {
                    Ok(t) => {
                        assert((out1 + piece) + t =~= out1 + (piece + t));
                    },
                    Err(_) => {},
                }
            }
        }
        i += 1;
    }
    proof {
        lemma_pending_not_done(keys, cache.states());
        assert forall|path: Set<Seq<char>>| path.disjoint(cache.done(map)) implies #[trigger] expand(
            store,
            parts,
            0,
            path,
        ) == Ok::<Seq<char>, Failure>(out@) by {
            assert(expand(store, parts, i as int, path) == Ok::<Seq<char>, Failure>(Seq::empty()));
            assert(out@ + Seq::<char>::empty() =~= out@);
        }
        assert forall|path: Set<Seq<char>>| path.disjoint(cache.done(map)) implies followed_by(
            Seq::<char>::empty(),
            #[trigger] expand(store, parts, 0, path),
        ) == expand(store, parts, 0, path) by {
            assert(Seq::<char>::empty() + out@ =~= out@);
        }
    }
    Ok(out)
}

/// No key is pending and done at once.
proof fn lemma_pending_not_done(keys: Seq<Seq<char>>, states: Seq<Delay>)
    ensures
        pending_keys(keys, states).disjoint(done_keys(keys, states)),
{
}

/// Resolves every value of `map`. A value may refer to values that come
/// later, and through them to others. The keys are taken in dictionary order;
/// the first whose value cannot be resolved decides the error.
///
/// Where no value refers to an undefined name, the result is a context if
/// the store has no reference cycle, and else a circular reference that names
/// a member of a cycle. Each value of the context is its raw value with the
/// placeholders replaced by the values of the context.
pub fn create_interpolation_context(map: StrMap<String>) -> (r: Result<InterpContext, InterpError>)
    ensures
        context_outcome(r) == resolve_all(text_map(map@), map.keys(), 0),
        r matches Ok(ctxt) ==> ctxt@.dom() == map@.dom(),
        closed(text_map(map@)) && !has_cycle(text_map(map@)) ==> r is Ok,
        closed(text_map(map@)) && has_cycle(text_map(map@)) ==> (r matches Err(
            InterpError::CircularReference(n),
        ) && on_cycle(text_map(map@), n@)),
        r matches Err(e) ==> failure_is_sound(text_map(map@), Err(e@)),
        r matches Ok(ctxt) ==> forall|k: Seq<char>| #[trigger]
            map@.contains_key(k) ==> substitute(text_map(map@)[k], ctxt@) == Ok::<
                Seq<char>,
                Failure,
            >(ctxt@[k]),
        r matches Ok(ctxt) ==> (plain_store(text_map(map@)) ==> forall|k: Seq<char>, i: int| #[trigger]
            map@.contains_key(k) ==> (#[trigger] placeholder_at(ctxt@[k], i)) is None),
{
    let ghost store = text_map(map@);
    let ghost keys = map.keys();
    let mut cache = ResolveCache::new(&map);
    let mut out: StrMap<String> = StrMap::new();
    let n = map.len();
    proof {
        map.lemma_dom();
    }
    let mut i: usize = 0;
    while i < n
        invariant
            i <= n,
            n == keys.len(),
            keys == map.keys(),
            store == text_map(map@),
            map.wf(),
            cache.consistent(&map),
            cache.pending(&map) == Set::<Seq<char>>::empty(),
            resolve_all(store, keys, i as int) == resolve_all(store, keys, 0),
            forall|k: Seq<char>| out@.contains_key(k) <==> keys.take(i as int).contains(k),
            forall|j: int|
                0 <= j < i ==> (#[trigger] top_value(store, keys[j])) == Ok::<Seq<char>, Failure>(
                    out@[keys[j]]@,
                ),
        decreases n - i,
    {
        proof {
            map.lemma_dom();
        }
        let key = map.key_at(i);
        let raw = map.value_at(i);
        assert(store[keys[i as int]] == raw@);
        match resolve_text(raw.as_str(), &map, &mut cache) {
            Err(e) => {
                proof {
                    assert(store.dom() =~= map@.dom());
                    law_failure_is_sound(store, keys[i as int]);
                }
                return Err(e);
            },
            Ok(v) => {
                out.insert(key.clone(), v);
                proof {
                    assert forall|k: Seq<char>| out@.contains_key(k) <==> keys.take(
                        i + 1,
                    ).contains(k) by {
                        if keys.take(i + 1).contains(k) {
                            let j = keys.take(i + 1).index_of(k);
                            if j < i {
                                assert(keys.take(i as int)[j] == k);
                            }
                        }
                        if keys.take(i as int).contains(k) {
                            let j = keys.take(i as int).index_of(k);
                            assert(keys.take(i + 1)[j] == k);
                        }
                        assert(keys.take(i + 1)[i as int] == keys[i as int]);
                    }
                    assert forall|j: int| 0 <= j < i + 1 implies (#[trigger] top_value(
                        store,
                        keys[j],
                    )) == Ok::<Seq<char>, Failure>(out@[keys[j]]@) by {
                        if j < i {
                            lemma_ascending_distinct(keys, j);
                            lemma_ascending_distinct(keys, i as int);
                        }
                    }
                }
            },
        }
        i += 1;
    }
    let ctxt = InterpContext(out);
    proof {
        assert(keys.take(n as int) =~= keys);
        assert(ctxt@.dom() =~= map@.dom());
        assert forall|k: Seq<char>| #[trigger] map@.contains_key(k) implies top_value(store, k)
            == Ok::<Seq<char>, Failure>(ctxt@[k]) by {
            let j = keys.index_of(k);
            assert(keys[j] == k);
        }
        assert(store.dom() =~= map@.dom());
        assert(ctxt@ =~= context_of(store));
        if has_cycle(store) {
            let c = choose|c: Seq<Seq<char>>| is_cycle(store, c);
            law_cycle_does_not_resolve(store, c);
            assert(map@.contains_key(c[0]));
        }
        assert forall|k: Seq<char>| #[trigger] map@.contains_key(k) implies substitute(
            store[k],
            ctxt@,
        ) == Ok::<Seq<char>, Failure>(ctxt@[k]) by {
            law_context_is_fixpoint(store, ctxt@, k);
        }
        if plain_store(store) {
            assert forall|k: Seq<char>, i: int| #[trigger] map@.contains_key(k) implies (
            #[trigger] placeholder_at(ctxt@[k], i)) is None by {
                law_resolved_value_is_plain(store, k);
            }
        }
    }
    Ok(ctxt)
}

} // verus!

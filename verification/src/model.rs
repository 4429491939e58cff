use crate::interpolation::{substitute, Failure};
use crate::json::{interp_json, JsonModel};
use crate::strmap::{lemma_slot_bounds, put_key, put_value};
use vstd::prelude::*;

verus! {

/// A map from texts to values as a list of entries, the keys ascending.
pub struct Entries<V> {
    pub keys: Seq<Seq<char>>,
    pub values: Seq<V>,
}

impl<V> Entries<V> {
    /// No entries.
    pub open spec fn empty() -> Self {
        Entries { keys: Seq::empty(), values: Seq::empty() }
    }

    /// The entries after `v` has been put under `k`.
    pub open spec fn put(self, k: Seq<char>, v: V) -> Self {
        Entries { keys: put_key(self.keys, k), values: put_value(self.keys, self.values, k, v) }
    }
}

/// Mapping the values and putting a value commute.
pub proof fn lemma_put_mapped<A, B>(
    keys: Seq<Seq<char>>,
    values: Seq<A>,
    k: Seq<char>,
    v: A,
    f: spec_fn(A) -> B,
)
    requires
        keys.len() == values.len(),
    ensures
        put_value(keys, values, k, v).map_values(f) == put_value(
            keys,
            values.map_values(f),
            k,
            f(v),
        ),
{
    lemma_slot_bounds(keys, k, 0);
    assert(put_value(keys, values, k, v).map_values(f) =~= put_value(
        keys,
        values.map_values(f),
        k,
        f(v),
    ));
}

/// Interpolating a text, as a function of the text.
pub open spec fn interp_text(values: Map<Seq<char>, Seq<char>>) -> spec_fn(Seq<char>) -> Result<
    Seq<char>,
    Failure,
> {
    |t: Seq<char>| substitute(t, values)
}

/// A value that may be missing, interpolated by `f` where it is there.
pub open spec fn interp_option<M>(v: Option<M>, f: spec_fn(M) -> Result<M, Failure>) -> Result<
    Option<M>,
    Failure,
> {
    match v {
        None => Ok(None),
        Some(x) => match f(x) {
            Ok(r) => Ok(Some(r)),
            Err(e) => Err(e),
        },
    }
}

/// The texts from position `i` on, interpolated in order and added to `done`;
/// the first that fails decides the error.
pub open spec fn interp_texts(
    list: Seq<Seq<char>>,
    i: int,
    done: Seq<Seq<char>>,
    values: Map<Seq<char>, Seq<char>>,
) -> Result<Seq<Seq<char>>, Failure>
    decreases list.len() - i,
{
    if !(0 <= i < list.len()) {
        Ok(done)
    } else {
        match substitute(list[i], values) {
            Ok(t) => interp_texts(list, i + 1, done.push(t), values),
            Err(e) => Err(e),
        }
    }
}

/// The entries from position `i` on, the key interpolated and then the value
/// by `f`, in order, and put into `done`; the first text that fails decides
/// the error. Where two keys become the same text, the later entry stays.
pub open spec fn interp_entries<M>(
    keys: Seq<Seq<char>>,
    vals: Seq<M>,
    i: int,
    done: Entries<M>,
    f: spec_fn(M) -> Result<M, Failure>,
    values: Map<Seq<char>, Seq<char>>,
) -> Result<Entries<M>, Failure>
    decreases keys.len() - i,
{
    if !(0 <= i < keys.len()) {
        Ok(done)
    } else {
        match substitute(keys[i], values) {
            Err(e) => Err(e),
            Ok(k) => match f(vals[i]) {
                Err(e) => Err(e),
                Ok(v) => interp_entries(keys, vals, i + 1, done.put(k, v), f, values),
            },
        }
    }
}

/// The value of a header or of a query: one text, or a list of texts.
pub enum ParamModel {
    Single(Seq<char>),
    Multiple(Seq<Seq<char>>),
}

impl ParamModel {
    /// The texts, one for each time that the header or query occurs.
    pub open spec fn texts(self) -> Seq<Seq<char>> {
        match self {
            ParamModel::Single(s) => seq![s],
            ParamModel::Multiple(list) => list,
        }
    }
}

/// A header or query value with its texts interpolated, in order.
pub open spec fn interp_param(p: ParamModel, values: Map<Seq<char>, Seq<char>>) -> Result<
    ParamModel,
    Failure,
> {
    match p {
        ParamModel::Single(s) => match substitute(s, values) {
            Ok(t) => Ok(ParamModel::Single(t)),
            Err(e) => Err(e),
        },
        ParamModel::Multiple(list) => match interp_texts(list, 0, Seq::empty(), values) {
            Ok(out) => Ok(ParamModel::Multiple(out)),
            Err(e) => Err(e),
        },
    }
}

/// A part of a multipart body: a text, or the path of a file.
pub enum PartModel {
    File(Seq<char>),
    Text(Seq<char>),
}

/// A part with its text or its path interpolated.
pub open spec fn interp_part(p: PartModel, values: Map<Seq<char>, Seq<char>>) -> Result<
    PartModel,
    Failure,
> {
    match p {
        PartModel::File(s) => match substitute(s, values) {
            Ok(t) => Ok(PartModel::File(t)),
            Err(e) => Err(e),
        },
        PartModel::Text(s) => match substitute(s, values) {
            Ok(t) => Ok(PartModel::Text(t)),
            Err(e) => Err(e),
        },
    }
}

/// The address of a proxy, alone or with the name and password to use.
pub enum ProxyUrlModel {
    Simple(Seq<char>),
    Detailed { url: Seq<char>, username: Option<Seq<char>>, password: Option<Seq<char>> },
}

/// A proxy address with its texts interpolated: the address, then the name,
/// then the password.
pub open spec fn interp_proxy_url(p: ProxyUrlModel, values: Map<Seq<char>, Seq<char>>) -> Result<
    ProxyUrlModel,
    Failure,
> {
    match p {
        ProxyUrlModel::Simple(url) => match substitute(url, values) {
            Ok(u) => Ok(ProxyUrlModel::Simple(u)),
            Err(e) => Err(e),
        },
        ProxyUrlModel::Detailed { url, username, password } => match substitute(url, values) {
            Err(e) => Err(e),
            Ok(u) => match interp_option(username, interp_text(values)) {
                Err(e) => Err(e),
                Ok(n) => match interp_option(password, interp_text(values)) {
                    Err(e) => Err(e),
                    Ok(p) => Ok(ProxyUrlModel::Detailed { url: u, username: n, password: p }),
                },
            },
        },
    }
}

/// Interpolating a proxy address, as a function of the address.
pub open spec fn interp_proxy_url_with(values: Map<Seq<char>, Seq<char>>) -> spec_fn(
    ProxyUrlModel,
) -> Result<ProxyUrlModel, Failure> {
    |p: ProxyUrlModel| interp_proxy_url(p, values)
}

/// The proxies of a task: one for every scheme, or one for each of the two.
pub enum ProxyModel {
    Simple(ProxyUrlModel),
    Detailed { http: Option<ProxyUrlModel>, https: Option<ProxyUrlModel> },
}

/// The proxies with their texts interpolated: that for http before that for https.
pub open spec fn interp_proxy(p: ProxyModel, values: Map<Seq<char>, Seq<char>>) -> Result<
    ProxyModel,
    Failure,
> {
    match p {
        ProxyModel::Simple(u) => match interp_proxy_url(u, values) {
            Ok(r) => Ok(ProxyModel::Simple(r)),
            Err(e) => Err(e),
        },
        ProxyModel::Detailed { http, https } => match interp_option(
            http,
            interp_proxy_url_with(values),
        ) {
            Err(e) => Err(e),
            Ok(a) => match interp_option(https, interp_proxy_url_with(values)) {
                Err(e) => Err(e),
                Ok(b) => Ok(ProxyModel::Detailed { http: a, https: b }),
            },
        },
    }
}

/// Interpolating the proxies, as a function of the proxies.
pub open spec fn interp_proxy_with(values: Map<Seq<char>, Seq<char>>) -> spec_fn(
    ProxyModel,
) -> Result<ProxyModel, Failure> {
    |p: ProxyModel| interp_proxy(p, values)
}

/// Whether a file of variables is read, and which.
pub enum EnvFileModel {
    Bool(bool),
    Path(Seq<char>),
}

/// How a request is carried.
pub struct ConfigModel {
    pub insecure: bool,
    pub redirect: usize,
    pub env_file: EnvFileModel,
    pub proxy: Option<ProxyModel>,
}

/// The configuration with the texts of its proxies interpolated; all else stays.
pub open spec fn interp_config(c: ConfigModel, values: Map<Seq<char>, Seq<char>>) -> Result<
    ConfigModel,
    Failure,
> {
    match interp_option(c.proxy, interp_proxy_with(values)) {
        Ok(p) => Ok(
            ConfigModel {
                insecure: c.insecure,
                redirect: c.redirect,
                env_file: c.env_file,
                proxy: p,
            },
        ),
        Err(e) => Err(e),
    }
}

/// Interpolating a configuration, as a function of the configuration.
pub open spec fn interp_config_with(values: Map<Seq<char>, Seq<char>>) -> spec_fn(
    ConfigModel,
) -> Result<ConfigModel, Failure> {
    |c: ConfigModel| interp_config(c, values)
}

/// How a request proves who sends it.
pub enum AuthModel {
    Bearer(Seq<char>),
    Basic { username: Seq<char>, password: Seq<char> },
}

/// The credentials with their texts interpolated: the name before the password.
pub open spec fn interp_auth(a: AuthModel, values: Map<Seq<char>, Seq<char>>) -> Result<
    AuthModel,
    Failure,
> {
    match a {
        AuthModel::Bearer(token) => match substitute(token, values) {
            Ok(t) => Ok(AuthModel::Bearer(t)),
            Err(e) => Err(e),
        },
        AuthModel::Basic { username, password } => match substitute(username, values) {
            Err(e) => Err(e),
            Ok(u) => match substitute(password, values) {
                Err(e) => Err(e),
                Ok(p) => Ok(AuthModel::Basic { username: u, password: p }),
            },
        },
    }
}

/// Interpolating credentials, as a function of the credentials.
pub open spec fn interp_auth_with(values: Map<Seq<char>, Seq<char>>) -> spec_fn(
    AuthModel,
) -> Result<AuthModel, Failure> {
    |a: AuthModel| interp_auth(a, values)
}

/// A method of HTTP.
#[derive(Clone, Copy, Debug, PartialEq, Eq, Structural)]
pub enum Method {
    Get,
    Post,
    Put,
    Delete,
    Head,
    Options,
    Connect,
    Patch,
    Trace,
}

/// The target of a request: a method and an address.
pub struct TargetModel {
    pub method: Method,
    pub url: Seq<char>,
}

/// The target with its address interpolated.
pub open spec fn interp_target(t: TargetModel, values: Map<Seq<char>, Seq<char>>) -> Result<
    TargetModel,
    Failure,
> {
    match substitute(t.url, values) {
        Ok(u) => Ok(TargetModel { method: t.method, url: u }),
        Err(e) => Err(e),
    }
}

/// The body of a request.
pub enum BodyModel {
    Empty,
    Plain(Seq<char>),
    Json(JsonModel),
    Form(Entries<Seq<char>>),
    Multipart(Entries<PartModel>),
}

/// Interpolating a part, as a function of the part.
pub open spec fn interp_part_with(values: Map<Seq<char>, Seq<char>>) -> spec_fn(
    PartModel,
) -> Result<PartModel, Failure> {
    |p: PartModel| interp_part(p, values)
}

/// Interpolating a header or query value, as a function of the value.
pub open spec fn interp_param_with(values: Map<Seq<char>, Seq<char>>) -> spec_fn(
    ParamModel,
) -> Result<ParamModel, Failure> {
    |p: ParamModel| interp_param(p, values)
}

/// The body with every text in it interpolated.
pub open spec fn interp_body(b: BodyModel, values: Map<Seq<char>, Seq<char>>) -> Result<
    BodyModel,
    Failure,
> {
    match b {
        BodyModel::Empty => Ok(BodyModel::Empty),
        BodyModel::Plain(s) => match substitute(s, values) {
            Ok(t) => Ok(BodyModel::Plain(t)),
            Err(e) => Err(e),
        },
        BodyModel::Json(v) => match interp_json(v, values) {
            Ok(t) => Ok(BodyModel::Json(t)),
            Err(e) => Err(e),
        },
        BodyModel::Form(entries) => match interp_entries(
            entries.keys,
            entries.values,
            0,
            Entries::empty(),
            interp_text(values),
            values,
        ) {
            Ok(out) => Ok(BodyModel::Form(out)),
            Err(e) => Err(e),
        },
        BodyModel::Multipart(entries) => match interp_entries(
            entries.keys,
            entries.values,
            0,
            Entries::empty(),
            interp_part_with(values),
            values,
        ) {
            Ok(out) => Ok(BodyModel::Multipart(out)),
            Err(e) => Err(e),
        },
    }
}

/// One request, as it is declared.
pub struct TaskModel {
    pub target: TargetModel,
    pub headers: Entries<ParamModel>,
    pub queries: Entries<ParamModel>,
    pub body: BodyModel,
    pub description: Seq<char>,
    pub auth: Option<AuthModel>,
    pub config: Option<ConfigModel>,
}

/// The headers or queries with their names and values interpolated.
pub open spec fn interp_params(entries: Entries<ParamModel>, values: Map<Seq<char>, Seq<char>>) -> Result<
    Entries<ParamModel>,
    Failure,
> {
    interp_entries(
        entries.keys,
        entries.values,
        0,
        Entries::empty(),
        interp_param_with(values),
        values,
    )
}

/// The task with every text that its author writes interpolated: the address,
/// the headers, the queries, the body, the credentials and the proxies, in
/// this order; the first text that fails decides the error. The method, the
/// description, the flags and the numbers stay.
pub open spec fn interp_task(t: TaskModel, values: Map<Seq<char>, Seq<char>>) -> Result<
    TaskModel,
    Failure,
> {
    match interp_target(t.target, values) {
        Err(e) => Err(e),
        Ok(target) => match interp_params(t.headers, values) {
            Err(e) => Err(e),
            Ok(headers) => match interp_params(t.queries, values) {
                Err(e) => Err(e),
                Ok(queries) => match interp_body(t.body, values) {
                    Err(e) => Err(e),
                    Ok(body) => match interp_option(t.auth, interp_auth_with(values)) {
                        Err(e) => Err(e),
                        Ok(auth) => match interp_option(t.config, interp_config_with(values)) {
                            Err(e) => Err(e),
                            Ok(config) => Ok(
                                TaskModel {
                                    target,
                                    headers,
                                    queries,
                                    body,
                                    description: t.description,
                                    auth,
                                    config,
                                },
                            ),
                        },
                    },
                },
            },
        },
    }
}

} // verus!

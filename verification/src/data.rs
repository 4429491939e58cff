use crate::interpolation::{interpolate, substitute, Failure, InterpContext, InterpError};
use crate::json::{interpolate_toml_value, JsonValue};
use crate::model::{
    interp_auth, interp_body, interp_config, interp_entries, interp_option, interp_param,
    interp_part, interp_part_with, interp_proxy, interp_proxy_url, interp_proxy_url_with,
    interp_target, interp_text, interp_texts, lemma_put_mapped, AuthModel,
    BodyModel, ConfigModel, Entries, EnvFileModel, Method, ParamModel, PartModel, ProxyModel,
    ProxyUrlModel, TargetModel,
};
use crate::strmap::StrMap;
use vstd::prelude::*;

verus! {

/// What a function that returns a value or an error stands for.
pub open spec fn outcome_of<T: View>(r: Result<T, InterpError>) -> Result<T::V, Failure> {
    match r {
        Ok(v) => Ok(v@),
        Err(e) => Err(e@),
    }
}

/// The texts of a list of strings.
pub open spec fn texts_of(list: Seq<String>) -> Seq<Seq<char>> {
    list.map_values(|s: String| s@)
}

/// The entries of a map, each value by its view.
pub open spec fn entries_of<V: View>(m: &StrMap<V>) -> Entries<V::V> {
    Entries { keys: m.keys(), values: m.values().map_values(|v: V| v@) }
}

/// A value that can be interpolated: its view says of which texts it is made.
pub trait Interpolate: View + Sized {
    /// The view of the value with its texts interpolated, or the first error.
    spec fn interp_view(v: Self::V, values: Map<Seq<char>, Seq<char>>) -> Result<Self::V, Failure>;

    /// The value with its texts interpolated.
    fn interpolated(&self, ctxt: &InterpContext) -> (r: Result<Self, InterpError>)
        ensures
            outcome_of(r) == Self::interp_view(self@, ctxt@),
    ;
}

/// Interpolating a value, as a function of its view.
pub open spec fn interp_view_with<V: Interpolate>(values: Map<Seq<char>, Seq<char>>) -> spec_fn(
    V::V,
) -> Result<V::V, Failure> {
    |v: V::V| V::interp_view(v, values)
}

impl Interpolate for String {
    open spec fn interp_view(v: Seq<char>, values: Map<Seq<char>, Seq<char>>) -> Result<
        Seq<char>,
        Failure,
    > {
        substitute(v, values)
    }

    fn interpolated(&self, ctxt: &InterpContext) -> (r: Result<String, InterpError>) {
        interpolate(self.as_str(), ctxt)
    }
}

/// The value of a header or of a query: one text, or a list of texts, one for
/// each time that the header or query occurs.
#[derive(Debug, PartialEq, Eq)]
pub enum ReqParam {
    Single(String),
    Multiple(Vec<String>),
}

impl View for ReqParam {
    type V = ParamModel;

    open spec fn view(&self) -> ParamModel {
        match self {
            ReqParam::Single(s) => ParamModel::Single(s@),
            ReqParam::Multiple(list) => ParamModel::Multiple(texts_of(list@)),
        }
    }
}

impl ReqParam {
    /// The texts, in order: one for a single value.
    pub fn iter(&self) -> (r: Vec<&String>)
        ensures
            r@.len() == self@.texts().len(),
            forall|i: int| 0 <= i < r@.len() ==> (#[trigger] r@[i])@ == self@.texts()[i],
    {
        let mut out: Vec<&String> = Vec::new();
        match self {
            ReqParam::Single(s) => {
                out.push(s);
            },
            ReqParam::Multiple(list) => {
                let mut i: usize = 0;
                while i < list.len()
                    invariant
                        i <= list.len(),
                        out@.len() == i,
                        forall|j: int| 0 <= j < i ==> (#[trigger] out@[j])@ == list@[j]@,
                    decreases list.len() - i,
                {
                    out.push(&list[i]);
                    i += 1;
                }
            },
        }
        out
    }

    /// The texts, in order, handed over.
    pub fn into_iter(self) -> (r: Vec<String>)
        ensures
            texts_of(r@) == self@.texts(),
    {
        match self {
            ReqParam::Single(s) => {
                let mut out: Vec<String> = Vec::new();
                out.push(s);
                assert(texts_of(out@) =~= seq![s@]);
                out
            },
            ReqParam::Multiple(list) => list,
        }
    }
}

/// Interpolates the strings of `list`, in order.
pub fn interpolate_list(list: &Vec<String>, ctxt: &InterpContext) -> (r: Result<
    Vec<String>,
    InterpError,
>)
    ensures
        match r {
            Ok(out) => interp_texts(texts_of(list@), 0, Seq::empty(), ctxt@) == Ok::<
                Seq<Seq<char>>,
                Failure,
            >(texts_of(out@)),
            Err(e) => interp_texts(texts_of(list@), 0, Seq::empty(), ctxt@) == Err::<
                Seq<Seq<char>>,
                Failure,
            >(e@),
        },
{
    let ghost texts = texts_of(list@);
    let mut out: Vec<String> = Vec::new();
    assert(texts_of(out@) =~= Seq::<Seq<char>>::empty());
    let mut i: usize = 0;
    while i < list.len()
        invariant
            i <= list.len(),
            texts == texts_of(list@),
            interp_texts(texts, i as int, texts_of(out@), ctxt@) == interp_texts(
                texts,
                0,
                Seq::empty(),
                ctxt@,
            ),
        decreases list.len() - i,
    {
        let ghost before = out@;
        match interpolate(list[i].as_str(), ctxt) {
            Ok(t) => {
                out.push(t);
                assert(texts_of(out@) =~= texts_of(before).push(t@));
            },
            Err(e) => {
                return Err(e);
            },
        }
        i += 1;
    }
    Ok(out)
}

impl Interpolate for ReqParam {
    open spec fn interp_view(v: ParamModel, values: Map<Seq<char>, Seq<char>>) -> Result<
        ParamModel,
        Failure,
    > {
        interp_param(v, values)
    }

    fn interpolated(&self, ctxt: &InterpContext) -> (r: Result<ReqParam, InterpError>) {
        match self {
            ReqParam::Single(s) => match interpolate(s.as_str(), ctxt) {
                Ok(t) => Ok(ReqParam::Single(t)),
                Err(e) => Err(e),
            },
            ReqParam::Multiple(list) => match interpolate_list(list, ctxt) {
                Ok(out) => Ok(ReqParam::Multiple(out)),
                Err(e) => Err(e),
            },
        }
    }
}

/// A part of a multipart body: a text, or the path of a file to send.
#[derive(Debug, PartialEq, Eq)]
pub enum ReqMultipartValue {
    File(String),
    Text(String),
}

impl View for ReqMultipartValue {
    type V = PartModel;

    open spec fn view(&self) -> PartModel {
        match self {
            ReqMultipartValue::File(p) => PartModel::File(p@),
            ReqMultipartValue::Text(s) => PartModel::Text(s@),
        }
    }
}

impl Interpolate for ReqMultipartValue {
    open spec fn interp_view(v: PartModel, values: Map<Seq<char>, Seq<char>>) -> Result<
        PartModel,
        Failure,
    > {
        interp_part(v, values)
    }

    fn interpolated(&self, ctxt: &InterpContext) -> (r: Result<ReqMultipartValue, InterpError>) {
        match self {
            ReqMultipartValue::File(p) => match interpolate(p.as_str(), ctxt) {
                Ok(t) => Ok(ReqMultipartValue::File(t)),
                Err(e) => Err(e),
            },
            ReqMultipartValue::Text(s) => match interpolate(s.as_str(), ctxt) {
                Ok(t) => Ok(ReqMultipartValue::Text(t)),
                Err(e) => Err(e),
            },
        }
    }
}

/// Interpolates the keys and the values of `m`, entry by entry in the order
/// of its keys, and collects them in a new map.
pub fn interpolate_entries<V: Interpolate>(m: &StrMap<V>, ctxt: &InterpContext) -> (r: Result<
    StrMap<V>,
    InterpError,
>)
    ensures
        match r {
            Ok(out) => interp_entries(
                entries_of(m).keys,
                entries_of(m).values,
                0,
                Entries::empty(),
                interp_view_with::<V>(ctxt@),
                ctxt@,
            ) == Ok::<Entries<V::V>, Failure>(entries_of(&out)),
            Err(e) => interp_entries(
                entries_of(m).keys,
                entries_of(m).values,
                0,
                Entries::empty(),
                interp_view_with::<V>(ctxt@),
                ctxt@,
            ) == Err::<Entries<V::V>, Failure>(e@),
        },
{
    let n = m.len();
    let ghost keys = m.keys();
    let ghost vals = entries_of(m).values;
    let ghost f = interp_view_with::<V>(ctxt@);
    let mut out: StrMap<V> = StrMap::new();
    assert(entries_of(&out).values =~= Seq::<V::V>::empty());
    let mut i: usize = 0;
    while i < n
        invariant
            i <= n,
            n == keys.len(),
            keys == m.keys(),
            vals == entries_of(m).values,
            f == interp_view_with::<V>(ctxt@),
            interp_entries(keys, vals, i as int, entries_of(&out), f, ctxt@) == interp_entries(
                keys,
                vals,
                0,
                Entries::empty(),
                f,
                ctxt@,
            ),
        decreases n - i,
    {
        let k = match interpolate(m.key_at(i).as_str(), ctxt) {
            Ok(k) => k,
            Err(e) => {
                return Err(e);
            },
        };
        let v = match m.value_at(i).interpolated(ctxt) {
            Ok(v) => v,
            Err(e) => {
                return Err(e);
            },
        };
        let ghost keys_before = out.keys();
        let ghost values_before = out.values();
        proof {
            lemma_put_mapped(keys_before, values_before, k@, v, |x: V| x@);
        }
        out.insert(k, v);
        i += 1;
    }
    Ok(out)
}

/// Interpolates the names and the values of headers or queries.
pub fn interpolate_btree_map(m: &StrMap<ReqParam>, ctxt: &InterpContext) -> (r: Result<
    StrMap<ReqParam>,
    InterpError,
>)
    ensures
        match r {
            Ok(out) => crate::model::interp_params(entries_of(m), ctxt@) == Ok::<
                Entries<ParamModel>,
                Failure,
            >(entries_of(&out)),
            Err(e) => crate::model::interp_params(entries_of(m), ctxt@) == Err::<
                Entries<ParamModel>,
                Failure,
            >(e@),
        },
{
    assert(interp_view_with::<ReqParam>(ctxt@) == crate::model::interp_param_with(ctxt@)) by {
        assert(interp_view_with::<ReqParam>(ctxt@) =~= crate::model::interp_param_with(ctxt@));
    }
    interpolate_entries(m, ctxt)
}

/// The view of a value that may be missing.
pub open spec fn option_view<T: View>(o: Option<T>) -> Option<T::V> {
    match o {
        Some(v) => Some(v@),
        None => None,
    }
}

/// A copy of a string that may be missing.
pub fn clone_text(o: &Option<String>) -> (r: Option<String>)
    ensures
        option_view(r) == option_view(*o),
{
    match o {
        Some(s) => Some(s.clone()),
        None => None,
    }
}

/// A string that may be missing, interpolated where it is there.
pub fn interpolate_option(o: &Option<String>, ctxt: &InterpContext) -> (r: Result<
    Option<String>,
    InterpError,
>)
    ensures
        match r {
            Ok(v) => interp_option(option_view(*o), interp_text(ctxt@)) == Ok::<
                Option<Seq<char>>,
                Failure,
            >(option_view(v)),
            Err(e) => interp_option(option_view(*o), interp_text(ctxt@)) == Err::<
                Option<Seq<char>>,
                Failure,
            >(e@),
        },
{
    match o {
        None => Ok(None),
        Some(s) => match interpolate(s.as_str(), ctxt) {
            Ok(t) => Ok(Some(t)),
            Err(e) => Err(e),
        },
    }
}

/// Whether a file of variables is read before a task is resolved: no, the
/// file `.env`, or the file at a path.
#[derive(Debug, PartialEq, Eq)]
pub enum EnvFile {
    Bool(bool),
    Path(String),
}

impl View for EnvFile {
    type V = EnvFileModel;

    open spec fn view(&self) -> EnvFileModel {
        match self {
            EnvFile::Bool(b) => EnvFileModel::Bool(*b),
            EnvFile::Path(p) => EnvFileModel::Path(p@),
        }
    }
}

impl Default for EnvFile {
    fn default() -> (r: Self)
        ensures
            r@ == EnvFileModel::Bool(false),
    {
        EnvFile::Bool(false)
    }
}

impl Clone for EnvFile {
    fn clone(&self) -> (r: Self)
        ensures
            r@ == self@,
    {
        match self {
            EnvFile::Bool(b) => EnvFile::Bool(*b),
            EnvFile::Path(p) => EnvFile::Path(p.clone()),
        }
    }
}

impl EnvFile {
    /// The path of the file to read, if one is read.
    pub fn path(&self) -> (r: Option<&str>)
        ensures
            match self@ {
                EnvFileModel::Bool(true) => r matches Some(p) && p@ == ".env"@,
                EnvFileModel::Bool(false) => r is None,
                EnvFileModel::Path(s) => r matches Some(p) && p@ == s,
            },
    {
        match self {
            EnvFile::Bool(true) => Some(".env"),
            EnvFile::Bool(false) => None,
            EnvFile::Path(s) => Some(s.as_str()),
        }
    }
}

/// The address of a proxy, alone or with the name and password to use.
#[derive(Debug, PartialEq, Eq)]
pub enum ReqProxyUrl {
    Simple(String),
    Detailed { url: String, username: Option<String>, password: Option<String> },
}

impl View for ReqProxyUrl {
    type V = ProxyUrlModel;

    open spec fn view(&self) -> ProxyUrlModel {
        match self {
            ReqProxyUrl::Simple(url) => ProxyUrlModel::Simple(url@),
            ReqProxyUrl::Detailed { url, username, password } => ProxyUrlModel::Detailed {
                url: url@,
                username: option_view(*username),
                password: option_view(*password),
            },
        }
    }
}

impl Clone for ReqProxyUrl {
    fn clone(&self) -> (r: Self)
        ensures
            r@ == self@,
    {
        match self {
            ReqProxyUrl::Simple(url) => ReqProxyUrl::Simple(url.clone()),
            ReqProxyUrl::Detailed { url, username, password } => ReqProxyUrl::Detailed {
                url: url.clone(),
                username: clone_text(username),
                password: clone_text(password),
            },
        }
    }
}

impl ProxyUrlModel {
    /// The address.
    pub open spec fn url(self) -> Seq<char> {
        match self {
            ProxyUrlModel::Simple(url) => url,
            ProxyUrlModel::Detailed { url, .. } => url,
        }
    }

    /// The name and the password, where both are given.
    pub open spec fn credentials(self) -> Option<(Seq<char>, Seq<char>)> {
        match self {
            ProxyUrlModel::Detailed { username: Some(u), password: Some(p), .. } => Some((u, p)),
            _ => None,
        }
    }
}

impl ReqProxyUrl {
    /// The proxy address with its texts interpolated.
    pub fn interpolate(&self, ctxt: &InterpContext) -> (r: Result<Self, InterpError>)
        ensures
            outcome_of(r) == interp_proxy_url(self@, ctxt@),
    {
        match self {
            ReqProxyUrl::Simple(url) => match interpolate(url.as_str(), ctxt) {
                Ok(u) => Ok(ReqProxyUrl::Simple(u)),
                Err(e) => Err(e),
            },
            ReqProxyUrl::Detailed { url, username, password } => {
                let u = match interpolate(url.as_str(), ctxt) {
                    Ok(u) => u,
                    Err(e) => {
                        return Err(e);
                    },
                };
                let n = match interpolate_option(username, ctxt) {
                    Ok(n) => n,
                    Err(e) => {
                        return Err(e);
                    },
                };
                let p = match interpolate_option(password, ctxt) {
                    Ok(p) => p,
                    Err(e) => {
                        return Err(e);
                    },
                };
                Ok(ReqProxyUrl::Detailed { url: u, username: n, password: p })
            },
        }
    }

    /// The address.
    pub fn url(&self) -> (r: &str)
        ensures
            r@ == self@.url(),
    {
        match self {
            ReqProxyUrl::Simple(url) => url.as_str(),
            ReqProxyUrl::Detailed { url, .. } => url.as_str(),
        }
    }

    /// The name and the password, where both are given.
    pub fn credentials(&self) -> (r: Option<(&str, &str)>)
        ensures
            match self@.credentials() {
                Some((u, p)) => r matches Some((a, b)) && a@ == u && b@ == p,
                None => r is None,
            },
    {
        match self {
            ReqProxyUrl::Simple(_) => None,
            ReqProxyUrl::Detailed { username: Some(u), password: Some(p), .. } => Some(
                (u.as_str(), p.as_str()),
            ),
            _ => None,
        }
    }
}

/// A proxy address that may be missing, interpolated where it is there.
fn interpolate_proxy_url_option(o: &Option<ReqProxyUrl>, ctxt: &InterpContext) -> (r: Result<
    Option<ReqProxyUrl>,
    InterpError,
>)
    ensures
        match r {
            Ok(v) => interp_option(option_view(*o), interp_proxy_url_with(ctxt@)) == Ok::<
                Option<ProxyUrlModel>,
                Failure,
            >(option_view(v)),
            Err(e) => interp_option(option_view(*o), interp_proxy_url_with(ctxt@)) == Err::<
                Option<ProxyUrlModel>,
                Failure,
            >(e@),
        },
{
    match o {
        None => Ok(None),
        Some(p) => match p.interpolate(ctxt) {
            Ok(t) => Ok(Some(t)),
            Err(e) => Err(e),
        },
    }
}

/// A copy of a proxy address that may be missing.
fn clone_proxy_url(o: &Option<ReqProxyUrl>) -> (r: Option<ReqProxyUrl>)
    ensures
        option_view(r) == option_view(*o),
{
    match o {
        Some(p) => Some(p.clone()),
        None => None,
    }
}

/// The proxies of a task: one for every scheme, or one for each of http and https.
#[derive(Debug, PartialEq, Eq)]
pub enum ReqProxy {
    Simple(ReqProxyUrl),
    Detailed { http: Option<ReqProxyUrl>, https: Option<ReqProxyUrl> },
}

impl View for ReqProxy {
    type V = ProxyModel;

    open spec fn view(&self) -> ProxyModel {
        match self {
            ReqProxy::Simple(p) => ProxyModel::Simple(p@),
            ReqProxy::Detailed { http, https } => ProxyModel::Detailed {
                http: option_view(*http),
                https: option_view(*https),
            },
        }
    }
}

impl Clone for ReqProxy {
    fn clone(&self) -> (r: Self)
        ensures
            r@ == self@,
    {
        match self {
            ReqProxy::Simple(p) => ReqProxy::Simple(p.clone()),
            ReqProxy::Detailed { http, https } => ReqProxy::Detailed {
                http: clone_proxy_url(http),
                https: clone_proxy_url(https),
            },
        }
    }
}

impl ReqProxy {
    /// The proxies with their texts interpolated.
    pub fn interpolate(&self, ctxt: &InterpContext) -> (r: Result<Self, InterpError>)
        ensures
            outcome_of(r) == interp_proxy(self@, ctxt@),
    {
        match self {
            ReqProxy::Simple(p) => match p.interpolate(ctxt) {
                Ok(t) => Ok(ReqProxy::Simple(t)),
                Err(e) => Err(e),
            },
            ReqProxy::Detailed { http, https } => {
                let a = match interpolate_proxy_url_option(http, ctxt) {
                    Ok(a) => a,
                    Err(e) => {
                        return Err(e);
                    },
                };
                let b = match interpolate_proxy_url_option(https, ctxt) {
                    Ok(b) => b,
                    Err(e) => {
                        return Err(e);
                    },
                };
                Ok(ReqProxy::Detailed { http: a, https: b })
            },
        }
    }
}

/// How a request is carried: whether certificates are checked, how many
/// redirects are followed, which file of variables is read, which proxies
/// are used.
#[derive(Debug, PartialEq, Eq)]
pub struct ReqConfig {
    pub insecure: bool,
    pub redirect: usize,
    pub env_file: EnvFile,
    pub proxy: Option<ReqProxy>,
}

impl View for ReqConfig {
    type V = ConfigModel;

    open spec fn view(&self) -> ConfigModel {
        ConfigModel {
            insecure: self.insecure,
            redirect: self.redirect,
            env_file: self.env_file@,
            proxy: option_view(self.proxy),
        }
    }
}

impl Default for ReqConfig {
    fn default() -> (r: Self)
        ensures
            r@ == (ConfigModel {
                insecure: false,
                redirect: 0,
                env_file: EnvFileModel::Bool(false),
                proxy: None,
            }),
    {
        ReqConfig { insecure: false, redirect: 0, env_file: EnvFile::Bool(false), proxy: None }
    }
}

impl Clone for ReqConfig {
    fn clone(&self) -> (r: Self)
        ensures
            r@ == self@,
    {
        ReqConfig {
            insecure: self.insecure,
            redirect: self.redirect,
            env_file: self.env_file.clone(),
            proxy: match &self.proxy {
                Some(p) => Some(p.clone()),
                None => None,
            },
        }
    }
}

impl ReqConfig {
    /// The configuration with the texts of its proxies interpolated.
    pub fn interpolate(&self, ctxt: &InterpContext) -> (r: Result<Self, InterpError>)
        ensures
            outcome_of(r) == interp_config(self@, ctxt@),
    {
        let proxy = match &self.proxy {
            None => None,
            Some(p) => match p.interpolate(ctxt) {
                Ok(t) => Some(t),
                Err(e) => {
                    return Err(e);
                },
            },
        };
        Ok(
            ReqConfig {
                insecure: self.insecure,
                redirect: self.redirect,
                env_file: self.env_file.clone(),
                proxy,
            },
        )
    }
}

/// How a request proves who sends it: a token, or a name and a password.
#[derive(Debug, PartialEq, Eq)]
pub enum ReqAuth {
    Bearer(String),
    Basic { username: String, password: String },
}

impl View for ReqAuth {
    type V = AuthModel;

    open spec fn view(&self) -> AuthModel {
        match self {
            ReqAuth::Bearer(token) => AuthModel::Bearer(token@),
            ReqAuth::Basic { username, password } => AuthModel::Basic {
                username: username@,
                password: password@,
            },
        }
    }
}

impl ReqAuth {
    /// The credentials with their texts interpolated.
    pub fn interpolate(&self, ctxt: &InterpContext) -> (r: Result<Self, InterpError>)
        ensures
            outcome_of(r) == interp_auth(self@, ctxt@),
    {
        match self {
            ReqAuth::Bearer(token) => match interpolate(token.as_str(), ctxt) {
                Ok(t) => Ok(ReqAuth::Bearer(t)),
                Err(e) => Err(e),
            },
            ReqAuth::Basic { username, password } => {
                let u = match interpolate(username.as_str(), ctxt) {
                    Ok(u) => u,
                    Err(e) => {
                        return Err(e);
                    },
                };
                let p = match interpolate(password.as_str(), ctxt) {
                    Ok(p) => p,
                    Err(e) => {
                        return Err(e);
                    },
                };
                Ok(ReqAuth::Basic { username: u, password: p })
            },
        }
    }
}

/// The target of a request: its method, with the address to send it to.
#[derive(Debug, PartialEq, Eq)]
pub enum ReqMethod {
    Get(String),
    Post(String),
    Put(String),
    Delete(String),
    Head(String),
    Options(String),
    Connect(String),
    Patch(String),
    Trace(String),
}

impl View for ReqMethod {
    type V = TargetModel;

    open spec fn view(&self) -> TargetModel {
        match self {
            ReqMethod::Get(s) => TargetModel { method: Method::Get, url: s@ },
            ReqMethod::Post(s) => TargetModel { method: Method::Post, url: s@ },
            ReqMethod::Put(s) => TargetModel { method: Method::Put, url: s@ },
            ReqMethod::Delete(s) => TargetModel { method: Method::Delete, url: s@ },
            ReqMethod::Head(s) => TargetModel { method: Method::Head, url: s@ },
            ReqMethod::Options(s) => TargetModel { method: Method::Options, url: s@ },
            ReqMethod::Connect(s) => TargetModel { method: Method::Connect, url: s@ },
            ReqMethod::Patch(s) => TargetModel { method: Method::Patch, url: s@ },
            ReqMethod::Trace(s) => TargetModel { method: Method::Trace, url: s@ },
        }
    }
}

impl ReqMethod {
    /// The target with this method and this address.
    pub fn new(method: Method, url: String) -> (r: Self)
        ensures
            r@ == (TargetModel { method, url: url@ }),
    {
        match method {
            Method::Get => ReqMethod::Get(url),
            Method::Post => ReqMethod::Post(url),
            Method::Put => ReqMethod::Put(url),
            Method::Delete => ReqMethod::Delete(url),
            Method::Head => ReqMethod::Head(url),
            Method::Options => ReqMethod::Options(url),
            Method::Connect => ReqMethod::Connect(url),
            Method::Patch => ReqMethod::Patch(url),
            Method::Trace => ReqMethod::Trace(url),
        }
    }

    /// The method and the address.
    pub fn method_and_url(&self) -> (r: (Method, &str))
        ensures
            r.0 == self@.method,
            r.1@ == self@.url,
    {
        match self {
            ReqMethod::Get(s) => (Method::Get, s.as_str()),
            ReqMethod::Post(s) => (Method::Post, s.as_str()),
            ReqMethod::Put(s) => (Method::Put, s.as_str()),
            ReqMethod::Delete(s) => (Method::Delete, s.as_str()),
            ReqMethod::Head(s) => (Method::Head, s.as_str()),
            ReqMethod::Options(s) => (Method::Options, s.as_str()),
            ReqMethod::Connect(s) => (Method::Connect, s.as_str()),
            ReqMethod::Patch(s) => (Method::Patch, s.as_str()),
            ReqMethod::Trace(s) => (Method::Trace, s.as_str()),
        }
    }

    /// The target with its address interpolated; the method stays.
    pub fn interpolatte(&self, ctxt: &InterpContext) -> (r: Result<Self, InterpError>)
        ensures
            outcome_of(r) == interp_target(self@, ctxt@),
    {
        let (method, url) = self.method_and_url();
        match interpolate(url, ctxt) {
            Ok(u) => Ok(ReqMethod::new(method, u)),
            Err(e) => Err(e),
        }
    }
}

/// The body of a request: none, a text, a structured value, a form, or parts.
#[derive(Debug, PartialEq)]
pub enum ReqBody {
    Empty,
    Plain(String),
    Json(JsonValue),
    Form(StrMap<String>),
    Multipart(StrMap<ReqMultipartValue>),
}

impl View for ReqBody {
    type V = BodyModel;

    open spec fn view(&self) -> BodyModel {
        match self {
            ReqBody::Empty => BodyModel::Empty,
            ReqBody::Plain(s) => BodyModel::Plain(s@),
            ReqBody::Json(v) => BodyModel::Json(v@),
            ReqBody::Form(m) => BodyModel::Form(entries_of(m)),
            ReqBody::Multipart(m) => BodyModel::Multipart(entries_of(m)),
        }
    }
}

impl Default for ReqBody {
    fn default() -> (r: Self)
        ensures
            r@ == BodyModel::Empty,
    {
        ReqBody::Empty
    }
}

impl ReqBody {
    /// The body with every text in it interpolated.
    pub fn interpolate(&self, ctxt: &InterpContext) -> (r: Result<Self, InterpError>)
        ensures
            outcome_of(r) == interp_body(self@, ctxt@),
    {
        match self {
            ReqBody::Empty => Ok(ReqBody::Empty),
            ReqBody::Plain(s) => match interpolate(s.as_str(), ctxt) {
                Ok(t) => Ok(ReqBody::Plain(t)),
                Err(e) => Err(e),
            },
            ReqBody::Json(v) => match interpolate_toml_value(v, ctxt) {
                Ok(t) => Ok(ReqBody::Json(t)),
                Err(e) => Err(e),
            },
            ReqBody::Form(m) => {
                assert(interp_view_with::<String>(ctxt@) =~= interp_text(ctxt@));
                match interpolate_entries(m, ctxt) {
                    Ok(out) => Ok(ReqBody::Form(out)),
                    Err(e) => Err(e),
                }
            },
            ReqBody::Multipart(m) => {
                assert(interp_view_with::<ReqMultipartValue>(ctxt@) =~= interp_part_with(ctxt@));
                match interpolate_entries(m, ctxt) {
                    Ok(out) => Ok(ReqBody::Multipart(out)),
                    Err(e) => Err(e),
                }
            },
        }
    }
}

} // verus!

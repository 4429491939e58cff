use crate::data::{ReqAuth, ReqBody, ReqParam, ReqProxy, ReqProxyUrl};
use crate::model::{
    AuthModel, BodyModel, ConfigModel, Entries, Method, ParamModel, ProxyModel, ProxyUrlModel,
    TaskModel,
};
use crate::strmap::StrMap;
use crate::task::ReqTask;
use base64::Engine;
use vstd::prelude::*;
use vstd::string::{StringExecFns, StringSliceAdditionalSpecFns};
use vstd::utf8::encode_utf8;

verus! {

/// The text that the standard base64 alphabet, with padding, gives for these bytes.
pub uninterp spec fn base64_standard(bytes: Seq<u8>) -> Seq<char>;

/// `base64::engine::general_purpose::STANDARD.encode`: the result is the
/// base64 text of the bytes of `input`. The call fails where that text, a
/// third longer than `input`, is longer than the machine lets a buffer be,
/// which the bound on `input` rules out.
#[verifier::external_body]
fn base64_encode(input: &str) -> (r: String)
    requires
        input.spec_bytes().len() <= usize::MAX / 4,
    ensures
        r@ == base64_standard(input.spec_bytes()),
{
    base64::engine::general_purpose::STANDARD.encode(input)
}

/// The header value for a token.
pub open spec fn bearer_header(token: Seq<char>) -> Seq<char> {
    "Bearer "@ + token
}

/// The header value for credentials that have been encoded.
pub open spec fn basic_header(encoded: Seq<char>) -> Seq<char> {
    "Basic "@ + encoded
}

/// The name and the password as they are encoded: with a colon between them.
pub open spec fn basic_credentials(username: Seq<char>, password: Seq<char>) -> Seq<char> {
    username + ":"@ + password
}

/// The value of the `Authorization` header.
pub open spec fn authorization_value(a: AuthModel) -> Seq<char> {
    match a {
        AuthModel::Bearer(token) => bearer_header(token),
        AuthModel::Basic { username, password } => basic_header(
            base64_standard(encode_utf8(basic_credentials(username, password))),
        ),
    }
}

/// The credentials are short enough to be encoded on this machine.
pub open spec fn auth_fits(a: AuthModel) -> bool {
    match a {
        AuthModel::Bearer(_) => true,
        AuthModel::Basic { username, password } => encode_utf8(
            basic_credentials(username, password),
        ).len() <= usize::MAX / 4,
    }
}

/// `Basic`, a space, and the encoded credentials.
pub fn basic_header_value(encoded: &str) -> (r: String)
    ensures
        r@ == basic_header(encoded@),
{
    let mut r = String::from_str("Basic ");
    r.append(encoded);
    r
}

/// The name, a colon, and the password.
fn credentials_of(username: &String, password: &String) -> (r: String)
    ensures
        r@ == basic_credentials(username@, password@),
{
    let mut credentials = username.clone();
    credentials.append(":");
    credentials.append(password.as_str());
    credentials
}

impl ReqAuth {
    /// The value of the `Authorization` header: `Bearer` and the token, or
    /// `Basic` and the base64 text of name, colon and password.
    pub fn authorization_header(&self) -> (r: String)
        requires
            auth_fits(self@),
        ensures
            r@ == authorization_value(self@),
    {
        match self {
            ReqAuth::Bearer(token) => {
                let mut r = String::from_str("Bearer ");
                r.append(token.as_str());
                r
            },
            ReqAuth::Basic { username, password } => {
                let credentials = credentials_of(username, password);
                let encoded = base64_encode(credentials.as_str());
                basic_header_value(encoded.as_str())
            },
        }
    }

    /// The value of the `Authorization` header, or nothing where the
    /// credentials are too long to be encoded on this machine.
    pub fn checked_authorization_header(&self) -> (r: Option<String>)
        ensures
            match r {
                Some(h) => auth_fits(self@) && h@ == authorization_value(self@),
                None => !auth_fits(self@),
            },
    {
        match self {
            ReqAuth::Bearer(_) => Some(self.authorization_header()),
            ReqAuth::Basic { username, password } => {
                let credentials = credentials_of(username, password);
                if credentials.as_str().as_bytes().len() <= usize::MAX / 4 {
                    let encoded = base64_encode(credentials.as_str());
                    Some(basic_header_value(encoded.as_str()))
                } else {
                    None
                }
            },
        }
    }
}

/// Whether redirects are followed, and how many at most.
#[derive(Clone, Copy, Debug, PartialEq, Eq, Structural)]
pub enum RedirectPolicy {
    Never,
    Limited(usize),
}

/// The redirect policy for a configured limit: none for zero.
pub open spec fn redirect_policy(limit: usize) -> RedirectPolicy {
    if limit > 0 {
        RedirectPolicy::Limited(limit)
    } else {
        RedirectPolicy::Never
    }
}

/// The requests that a proxy serves.
#[derive(Clone, Copy, Debug, PartialEq, Eq, Structural)]
pub enum ProxyScope {
    All,
    Http,
    Https,
}

/// One proxy to use: for which requests, at which address, and with which
/// name and password.
#[derive(Debug, PartialEq, Eq)]
pub struct ProxyEntry {
    pub scope: ProxyScope,
    pub url: String,
    pub credentials: Option<(String, String)>,
}

/// One proxy to use, over plain texts.
pub struct ProxyEntryModel {
    pub scope: ProxyScope,
    pub url: Seq<char>,
    pub credentials: Option<(Seq<char>, Seq<char>)>,
}

impl View for ProxyEntry {
    type V = ProxyEntryModel;

    open spec fn view(&self) -> ProxyEntryModel {
        ProxyEntryModel {
            scope: self.scope,
            url: self.url@,
            credentials: match self.credentials {
                Some((u, p)) => Some((u@, p@)),
                None => None,
            },
        }
    }
}

/// The proxy entry for an address and a scope.
pub open spec fn proxy_entry(scope: ProxyScope, p: ProxyUrlModel) -> ProxyEntryModel {
    ProxyEntryModel { scope, url: p.url(), credentials: p.credentials() }
}

/// The proxy entries of a task: one for all requests, or one for each scheme
/// that has a proxy, that for http first.
pub open spec fn proxy_entries(p: Option<ProxyModel>) -> Seq<ProxyEntryModel> {
    match p {
        None => Seq::empty(),
        Some(ProxyModel::Simple(u)) => seq![proxy_entry(ProxyScope::All, u)],
        Some(ProxyModel::Detailed { http, https }) => (match http {
            Some(u) => seq![proxy_entry(ProxyScope::Http, u)],
            None => Seq::empty(),
        }) + (match https {
            Some(u) => seq![proxy_entry(ProxyScope::Https, u)],
            None => Seq::empty(),
        }),
    }
}

/// The views of a list of proxy entries.
pub open spec fn proxy_views(list: Seq<ProxyEntry>) -> Seq<ProxyEntryModel> {
    list.map_values(|e: ProxyEntry| e@)
}

/// The proxy entry for an address and a scope.
fn entry_for(scope: ProxyScope, p: &ReqProxyUrl) -> (r: ProxyEntry)
    ensures
        r@ == proxy_entry(scope, p@),
{
    let credentials = match p.credentials() {
        Some((u, w)) => Some((String::from_str(u), String::from_str(w))),
        None => None,
    };
    ProxyEntry { scope, url: String::from_str(p.url()), credentials }
}

impl ReqProxy {
    /// The proxies to use: none, one or two.
    pub fn entries(&self) -> (r: Vec<ProxyEntry>)
        ensures
            proxy_views(r@) == proxy_entries(Some(self@)),
            r@.len() <= 2,
    {
        let mut out: Vec<ProxyEntry> = Vec::new();
        match self {
            ReqProxy::Simple(u) => {
                out.push(entry_for(ProxyScope::All, u));
            },
            ReqProxy::Detailed { http, https } => {
                match http {
                    Some(u) => {
                        out.push(entry_for(ProxyScope::Http, u));
                    },
                    None => {},
                }
                match https {
                    Some(u) => {
                        out.push(entry_for(ProxyScope::Https, u));
                    },
                    None => {},
                }
            },
        }
        assert(proxy_views(out@) =~= proxy_entries(Some(self@)));
        out
    }
}

/// The occurrences of one header or query: its name with each of its texts, in order.
pub open spec fn occurrences(name: Seq<char>, p: ParamModel) -> Seq<(Seq<char>, Seq<char>)> {
    Seq::new(p.texts().len(), |j: int| (name, p.texts()[j]))
}

/// The occurrences of the first `n` headers or queries, in the order of
/// their names, and for one name in the order of its texts.
pub open spec fn expansion(entries: Entries<ParamModel>, n: int) -> Seq<(Seq<char>, Seq<char>)>
    decreases n,
{
    if n <= 0 {
        Seq::empty()
    } else {
        expansion(entries, n - 1) + occurrences(entries.keys[n - 1], entries.values[n - 1])
    }
}

/// The views of a list of pairs of strings.
pub open spec fn pair_views(list: Seq<(String, String)>) -> Seq<(Seq<char>, Seq<char>)> {
    list.map_values(|p: (String, String)| (p.0@, p.1@))
}

/// Adds the occurrences of the headers or queries of `m` to `out`.
pub fn expand_params(m: &StrMap<ReqParam>, out: &mut Vec<(String, String)>)
    ensures
        pair_views(final(out)@) == pair_views(old(out)@) + expansion(
            crate::data::entries_of(m),
            m.keys().len() as int,
        ),
{
    let ghost entries = crate::data::entries_of(m);
    let ghost start = pair_views(out@);
    let n = m.len();
    let mut i: usize = 0;
    assert(start + expansion(entries, 0) =~= start);
    while i < n
        invariant
            i <= n,
            n == m.keys().len(),
            entries == crate::data::entries_of(m),
            pair_views(out@) == start + expansion(entries, i as int),
        decreases n - i,
    {
        let name = m.key_at(i);
        let texts = m.value_at(i).iter();
        let ghost before = pair_views(out@);
        let ghost param = entries.values[i as int];
        assert(param == m.values()[i as int]@);
        let mut j: usize = 0;
        while j < texts.len()
            invariant
                j <= texts.len(),
                name@ == entries.keys[i as int],
                texts@.len() == param.texts().len(),
                forall|k: int| 0 <= k < texts@.len() ==> (#[trigger] texts@[k])@ == param.texts()[k],
                pair_views(out@) == before + occurrences(name@, param).take(j as int),
            decreases texts.len() - j,
        {
            let ghost prev = pair_views(out@);
            out.push((name.clone(), texts[j].clone()));
            assert(pair_views(out@) =~= prev.push((name@, param.texts()[j as int])));
            assert(occurrences(name@, param).take(j + 1) =~= occurrences(name@, param).take(
                j as int,
            ).push((name@, param.texts()[j as int])));
            j += 1;
        }
        assert(occurrences(name@, param).take(j as int) =~= occurrences(name@, param));
        assert(start + expansion(entries, i + 1) =~= (start + expansion(entries, i as int))
            + occurrences(name@, param));
        i += 1;
    }
}

/// The content type that the encoding of a body brings with it: none for no
/// body and for a text, which is sent as it stands.
pub open spec fn body_content_type(b: BodyModel) -> Option<Seq<char>> {
    match b {
        BodyModel::Empty => None,
        BodyModel::Plain(_) => None,
        BodyModel::Json(_) => Some("application/json"@),
        BodyModel::Form(_) => Some("application/x-www-form-urlencoded"@),
        BodyModel::Multipart(_) => Some("multipart/form-data"@),
    }
}

impl ReqBody {
    /// The content type that the encoding of the body brings with it.
    pub fn content_type(&self) -> (r: Option<&'static str>)
        ensures
            match body_content_type(self@) {
                Some(t) => r matches Some(s) && s@ == t,
                None => r is None,
            },
    {
        match self {
            ReqBody::Empty => None,
            ReqBody::Plain(_) => None,
            ReqBody::Json(_) => Some("application/json"),
            ReqBody::Form(_) => Some("application/x-www-form-urlencoded"),
            ReqBody::Multipart(_) => Some("multipart/form-data"),
        }
    }
}

/// What is needed to send a request: the parameters of the exchange.
#[derive(Debug, PartialEq)]
pub struct RequestParameters<'a> {
    pub method: Method,
    pub url: String,
    /// The query parameters, one for each occurrence.
    pub queries: Vec<(String, String)>,
    /// The body, as the task holds it: each kind has its own encoding.
    pub body: &'a ReqBody,
    /// The content type that the encoding of the body brings with it.
    pub content_type: Option<&'static str>,
    /// The headers, one for each occurrence; `Authorization` comes first.
    pub headers: Vec<(String, String)>,
    /// Whether certificates are accepted unchecked.
    pub insecure: bool,
    pub redirect: RedirectPolicy,
    pub proxies: Vec<ProxyEntry>,
}

/// The headers of a task: `Authorization`, where the task has credentials,
/// then the headers that the task names.
pub open spec fn header_list(t: TaskModel) -> Seq<(Seq<char>, Seq<char>)> {
    (match t.auth {
        Some(a) => seq![("Authorization"@, authorization_value(a))],
        None => Seq::empty(),
    }) + expansion(t.headers, t.headers.keys.len() as int)
}

/// How a task is carried: as it says, or with nothing unusual.
pub open spec fn transport(t: TaskModel) -> ConfigModel {
    match t.config {
        Some(c) => c,
        None => ConfigModel {
            insecure: false,
            redirect: 0,
            env_file: crate::model::EnvFileModel::Bool(false),
            proxy: None,
        },
    }
}

impl ReqTask {
    /// The credentials of the task are short enough to be encoded on this machine.
    pub open spec fn fits(&self) -> bool {
        match self@.auth {
            Some(a) => auth_fits(a),
            None => true,
        }
    }

    /// `r` holds the parameters of the exchange that the task describes. A
    /// header or query with a list of texts occurs once for each text, in
    /// order, and the `Authorization` header stands before the headers of
    /// the task, which may name it once more.
    pub open spec fn describes(&self, r: RequestParameters<'_>) -> bool {
        &&& r.method == self@.target.method
        &&& r.url@ == self@.target.url
        &&& pair_views(r.queries@) == expansion(self@.queries, self@.queries.keys.len() as int)
        &&& *r.body == self.body
        &&& match body_content_type(self@.body) {
            Some(t) => r.content_type matches Some(s) && s@ == t,
            None => r.content_type is None,
        }
        &&& pair_views(r.headers@) == header_list(self@)
        &&& r.insecure == transport(self@).insecure
        &&& r.redirect == redirect_policy(transport(self@).redirect)
        &&& proxy_views(r.proxies@) == proxy_entries(transport(self@).proxy)
    }

    /// The parameters of the exchange, with the `Authorization` header that
    /// has been made of the credentials.
    fn assemble(&self, authorization: Option<String>) -> (r: RequestParameters<'_>)
        requires
            match self.auth {
                Some(a) => authorization matches Some(h) && h@ == authorization_value(a@),
                None => authorization is None,
            },
        ensures
            self.describes(r),
    {
        let (method, url) = self.method.method_and_url();
        let mut queries: Vec<(String, String)> = Vec::new();
        assert(pair_views(queries@) =~= Seq::empty());
        expand_params(&self.queries, &mut queries);
        assert(pair_views(queries@) =~= expansion(
            self@.queries,
            self@.queries.keys.len() as int,
        ));
        let mut headers: Vec<(String, String)> = Vec::new();
        match authorization {
            Some(h) => {
                headers.push((String::from_str("Authorization"), h));
                assert(pair_views(headers@) =~= seq![("Authorization"@, h@)]);
            },
            None => {
                assert(pair_views(headers@) =~= Seq::empty());
            },
        }
        expand_params(&self.headers, &mut headers);
        let (insecure, limit, proxies) = match &self.config {
            Some(c) => (
                c.insecure,
                c.redirect,
                match &c.proxy {
                    Some(p) => p.entries(),
                    None => Vec::new(),
                },
            ),
            None => (false, 0, Vec::new()),
        };
        assert(proxy_views(proxies@) =~= proxy_entries(transport(self@).proxy));
        let redirect = if limit > 0 {
            RedirectPolicy::Limited(limit)
        } else {
            RedirectPolicy::Never
        };
        RequestParameters {
            method,
            url: String::from_str(url),
            queries,
            body: &self.body,
            content_type: self.body.content_type(),
            headers,
            insecure,
            redirect,
            proxies,
        }
    }

    /// The parameters of the exchange that the task describes.
    pub fn request(&self) -> (r: RequestParameters<'_>)
        requires
            self.fits(),
        ensures
            self.describes(r),
    {
        let authorization = match &self.auth {
            Some(a) => Some(a.authorization_header()),
            None => None,
        };
        self.assemble(authorization)
    }

    /// The parameters of the exchange that the task describes, or nothing
    /// where its credentials are too long to be encoded on this machine.
    pub fn checked_request(&self) -> (r: Option<RequestParameters<'_>>)
        ensures
            match r {
                Some(p) => self.fits() && self.describes(p),
                None => !self.fits(),
            },
    {
        match &self.auth {
            Some(a) => match a.checked_authorization_header() {
                Some(h) => Some(self.assemble(Some(h))),
                None => None,
            },
            None => Some(self.assemble(None)),
        }
    }
}

} // verus!

use base64::Engine;
use req::curl::{choose_boundary, shell_escape, BuiltRequest};
use req::data::{
    ReqAuth, ReqBody, ReqConfig, ReqMethod, ReqMultipartValue, ReqParam, ReqProxy, ReqProxyUrl,
};
use req::interpolation::{
    create_interpolation_context, getter_with_cache, interpolate, resolve_text, InterpContext,
    InterpError, ResolveCache,
};
use req::json::{JsonNumber, JsonValue};
use req::model::Method;
use req::request::{RedirectPolicy, RequestParameters};
use req::strmap::StrMap;
use req::task::{Req, ReqTask};

fn store(pairs: &[(&str, &str)]) -> StrMap<String> {
    let mut map = StrMap::new();
    for (k, v) in pairs {
        map.insert(k.to_string(), v.to_string());
    }
    map
}

fn context(pairs: &[(&str, &str)]) -> InterpContext {
    create_interpolation_context(store(pairs)).unwrap()
}

fn task(method: ReqMethod) -> ReqTask {
    ReqTask {
        method,
        headers: StrMap::new(),
        queries: StrMap::new(),
        body: ReqBody::Empty,
        description: String::new(),
        auth: None,
        config: None,
    }
}

fn pair(a: &str, b: &str) -> (String, String) {
    (a.to_string(), b.to_string())
}

#[test]
fn values_resolve_through_references_in_any_order() {
    let ctxt = context(&[
        ("host", "example.com"),
        ("port", "8080"),
        ("base", "https://${host}:${port}"),
        ("api", "${base}/api"),
    ]);
    assert_eq!(ctxt.get("api").unwrap(), "https://example.com:8080/api");
    assert_eq!(ctxt.get("base").unwrap(), "https://example.com:8080");
    assert_eq!(ctxt.len(), 4);
}

#[test]
fn a_value_may_refer_to_a_later_key() {
    let ctxt = context(&[("a", "${z}!"), ("z", "$y"), ("y", "end")]);
    assert_eq!(ctxt.get("a").unwrap(), "end!");
    assert_eq!(ctxt.get("z").unwrap(), "end");
}

#[test]
fn a_value_used_twice_is_the_same_both_times() {
    let ctxt = context(&[("a", "${c}${c}"), ("b", "${c}-${a}"), ("c", "x")]);
    assert_eq!(ctxt.get("a").unwrap(), "xx");
    assert_eq!(ctxt.get("b").unwrap(), "x-xx");
}

#[test]
fn a_cycle_names_one_of_its_members() {
    let r = create_interpolation_context(store(&[("a", "${b}"), ("b", "${c}"), ("c", "${a}"), ("d", "ok")]));
    match r {
        Err(InterpError::CircularReference(k)) => assert!(["a", "b", "c"].contains(&k.as_str())),
        _ => panic!("a cycle was not found"),
    }
    let r = create_interpolation_context(store(&[("a", "${b}"), ("b", "${a}")]));
    assert_eq!(r.err(), Some(InterpError::CircularReference("b".to_string())));
}

#[test]
fn the_first_key_that_fails_decides_the_error() {
    let r = create_interpolation_context(store(&[("a", "${zz}"), ("b", "${b}")]));
    assert_eq!(r.err(), Some(InterpError::ValueNotFound("zz".to_string())));
    let r = create_interpolation_context(store(&[("a", "${a}"), ("b", "${zz}")]));
    assert_eq!(r.err(), Some(InterpError::CircularReference("a".to_string())));
}

#[test]
fn a_cache_answers_for_one_key_at_a_time() {
    let map = store(&[("a", "${b}${b}"), ("b", "x$c"), ("c", "y"), ("d", "${d}")]);
    let mut cache = ResolveCache::new(&map);
    assert_eq!(getter_with_cache("a", &map, &mut cache), Ok("xyxy".to_string()));
    assert_eq!(getter_with_cache("b", &map, &mut cache), Ok("xy".to_string()));
    assert_eq!(resolve_text("<$a|$c>", &map, &mut cache), Ok("<xyxy|y>".to_string()));
    assert_eq!(
        getter_with_cache("e", &map, &mut cache),
        Err(InterpError::ValueNotFound("e".to_string()))
    );
    let mut fresh = ResolveCache::new(&map);
    assert_eq!(
        getter_with_cache("d", &map, &mut fresh),
        Err(InterpError::CircularReference("d".to_string()))
    );
}

#[test]
fn an_escaped_reference_makes_no_cycle() {
    let ctxt = context(&[("a", "$${a}")]);
    assert_eq!(ctxt.get("a").unwrap(), "${a}");
}

#[test]
fn errors_say_which_value_they_mean() {
    assert_eq!(
        InterpError::ValueNotFound("x".to_string()).message(),
        "value named \"x\" not defined"
    );
    assert_eq!(
        InterpError::CircularReference("y".to_string()).message(),
        "found circular reference in \"y\""
    );
}

#[test]
fn an_undefined_name_in_the_address_fails_the_task() {
    let mut tasks = StrMap::new();
    tasks.insert("t".to_string(), task(ReqMethod::Get("${UNDEFINED}".to_string())));
    let req = Req {
        tasks,
        variables: StrMap::new(),
        config: None,
    };
    assert_eq!(
        req.get_task("t"),
        Err(InterpError::ValueNotFound("UNDEFINED".to_string()))
    );
}

#[test]
fn get_task_resolves_every_text_of_the_task() {
    let mut headers = StrMap::new();
    headers.insert("X-${k}".to_string(), ReqParam::Single("${v}".to_string()));
    let mut queries = StrMap::new();
    queries.insert(
        "q".to_string(),
        ReqParam::Multiple(vec!["${v}".to_string(), "$$v".to_string()]),
    );
    let mut form = StrMap::new();
    form.insert("${k}".to_string(), "${v}".to_string());
    let t = ReqTask {
        method: ReqMethod::Post("http://${host}/".to_string()),
        headers,
        queries,
        body: ReqBody::Form(form),
        description: "send ${v}".to_string(),
        auth: Some(ReqAuth::Bearer("${v}".to_string())),
        config: None,
    };
    let mut tasks = StrMap::new();
    tasks.insert("t".to_string(), t);
    let fallback = ReqConfig {
        insecure: true,
        ..ReqConfig::default()
    };
    let req = Req {
        tasks,
        variables: store(&[("host", "h"), ("k", "key"), ("v", "val")]),
        config: Some(fallback),
    };
    let got = req.get_task("t").unwrap().unwrap();

    let mut headers = StrMap::new();
    headers.insert("X-key".to_string(), ReqParam::Single("val".to_string()));
    let mut queries = StrMap::new();
    queries.insert(
        "q".to_string(),
        ReqParam::Multiple(vec!["val".to_string(), "$v".to_string()]),
    );
    let mut form = StrMap::new();
    form.insert("key".to_string(), "val".to_string());
    assert_eq!(
        got,
        ReqTask {
            method: ReqMethod::Post("http://h/".to_string()),
            headers,
            queries,
            body: ReqBody::Form(form),
            description: "send ${v}".to_string(),
            auth: Some(ReqAuth::Bearer("val".to_string())),
            config: Some(ReqConfig {
                insecure: true,
                ..ReqConfig::default()
            }),
        }
    );
}

#[test]
fn get_task_of_an_unknown_name_is_none_and_bad_variables_fail_first() {
    let req = Req {
        tasks: StrMap::new(),
        variables: store(&[("a", "1")]),
        config: None,
    };
    assert_eq!(req.get_task("nothing"), Ok(None));
    let req = Req {
        tasks: StrMap::new(),
        variables: store(&[("a", "${a}")]),
        config: None,
    };
    assert_eq!(
        req.get_task("nothing"),
        Err(InterpError::CircularReference("a".to_string()))
    );
}

#[test]
fn the_proxy_of_the_document_is_resolved_with_the_task() {
    let proxy = |url: &str| {
        Some(ReqConfig {
            proxy: Some(ReqProxy::Simple(ReqProxyUrl::Simple(url.to_string()))),
            ..ReqConfig::default()
        })
    };
    let mut tasks = StrMap::new();
    tasks.insert("t".to_string(), task(ReqMethod::Get("http://h/".to_string())));
    let req = Req {
        tasks,
        variables: store(&[("P", "http://p:1")]),
        config: proxy("${P}"),
    };
    let got = req.get_task("t").unwrap().unwrap();
    assert_eq!(got.config, proxy("http://p:1"));
    assert_eq!(got.request().proxies[0].url, "http://p:1");
}

#[test]
fn an_undefined_name_in_the_proxy_of_the_document_fails_the_task_that_uses_it() {
    let document = || {
        Some(ReqConfig {
            proxy: Some(ReqProxy::Simple(ReqProxyUrl::Simple("${NONE}".to_string()))),
            ..ReqConfig::default()
        })
    };
    let mut tasks = StrMap::new();
    tasks.insert("t".to_string(), task(ReqMethod::Get("${ALSO_NONE}".to_string())));
    tasks.insert("u".to_string(), task(ReqMethod::Get("http://h/".to_string())));
    let mut own = task(ReqMethod::Get("http://h/".to_string()));
    own.config = Some(ReqConfig::default());
    tasks.insert("v".to_string(), own);
    let req = |tasks| Req {
        tasks,
        variables: StrMap::new(),
        config: document(),
    };
    let mut only_u = StrMap::new();
    only_u.insert("u".to_string(), task(ReqMethod::Get("http://h/".to_string())));
    assert_eq!(
        req(only_u).get_task("u"),
        Err(InterpError::ValueNotFound("NONE".to_string()))
    );
    let mut only_t = StrMap::new();
    only_t.insert("t".to_string(), task(ReqMethod::Get("${ALSO_NONE}".to_string())));
    assert_eq!(
        req(only_t).get_task("t"),
        Err(InterpError::ValueNotFound("ALSO_NONE".to_string()))
    );
    let got = req(tasks).get_task("v").unwrap().unwrap();
    assert_eq!(got.config, Some(ReqConfig::default()));
}

#[test]
fn a_task_keeps_its_own_configuration() {
    let mut t = task(ReqMethod::Get("u".to_string()));
    t.config = Some(ReqConfig {
        redirect: 3,
        ..ReqConfig::default()
    });
    let mut tasks = StrMap::new();
    tasks.insert("t".to_string(), t);
    let req = Req {
        tasks,
        variables: StrMap::new(),
        config: Some(ReqConfig {
            insecure: true,
            ..ReqConfig::default()
        }),
    };
    let got = req.get_task("t").unwrap().unwrap();
    assert_eq!(got.config.as_ref().unwrap().redirect, 3);
    assert!(!got.config.as_ref().unwrap().insecure);
}

#[test]
fn header_names_that_become_equal_keep_the_later_entry() {
    let mut headers = StrMap::new();
    headers.insert("${a}".to_string(), ReqParam::Single("first".to_string()));
    headers.insert("${b}".to_string(), ReqParam::Single("second".to_string()));
    let ctxt = context(&[("a", "H"), ("b", "H")]);
    let out = req::data::interpolate_btree_map(&headers, &ctxt).unwrap();
    assert_eq!(out.len(), 1);
    assert_eq!(out.get("H"), Some(&ReqParam::Single("second".to_string())));
}

#[test]
fn a_list_of_query_values_occurs_once_for_each_value() {
    let mut t = task(ReqMethod::Get("http://h/get".to_string()));
    t.queries.insert("foo".to_string(), ReqParam::Single("FOO".to_string()));
    t.queries.insert(
        "bar".to_string(),
        ReqParam::Multiple(vec!["BAR".to_string(), "BAZ".to_string()]),
    );
    let r: RequestParameters = t.request();
    assert_eq!(
        r.queries,
        vec![pair("bar", "BAR"), pair("bar", "BAZ"), pair("foo", "FOO")]
    );
    assert_eq!(r.method, Method::Get);
    assert_eq!(r.url, "http://h/get");
    assert!(r.headers.is_empty());
    assert_eq!(r.body, &ReqBody::Empty);
    assert_eq!(r.content_type, None);
    assert!(!r.insecure);
    assert_eq!(r.redirect, RedirectPolicy::Never);
    assert!(r.proxies.is_empty());
}

#[test]
fn basic_credentials_give_an_authorization_header() {
    let auth = ReqAuth::Basic {
        username: "admin".to_string(),
        password: "secret".to_string(),
    };
    let expected = format!(
        "Basic {}",
        base64::engine::general_purpose::STANDARD.encode("admin:secret")
    );
    assert_eq!(auth.authorization_header(), expected);
    assert_eq!(auth.authorization_header(), "Basic YWRtaW46c2VjcmV0");
    assert_eq!(
        auth.checked_authorization_header(),
        Some("Basic YWRtaW46c2VjcmV0".to_string())
    );

    let mut t = task(ReqMethod::Get("http://h/".to_string()));
    t.auth = Some(auth);
    t.headers
        .insert("Authorization".to_string(), ReqParam::Single("mine".to_string()));
    t.headers.insert(
        "Accept".to_string(),
        ReqParam::Multiple(vec!["a/b".to_string(), "c/d".to_string()]),
    );
    assert_eq!(
        t.request().headers,
        vec![
            pair("Authorization", "Basic YWRtaW46c2VjcmV0"),
            pair("Accept", "a/b"),
            pair("Accept", "c/d"),
            pair("Authorization", "mine"),
        ]
    );
}

#[test]
fn a_token_gives_a_bearer_header() {
    let auth = ReqAuth::Bearer("test-token-123".to_string());
    assert_eq!(auth.authorization_header(), "Bearer test-token-123");
    assert_eq!(req::request::basic_header_value("abc"), "Basic abc");
}

#[test]
fn credentials_are_interpolated_name_first() {
    let ctxt = context(&[("u", "admin")]);
    let auth = ReqAuth::Basic {
        username: "${u}".to_string(),
        password: "${p}".to_string(),
    };
    assert_eq!(
        auth.interpolate(&ctxt),
        Err(InterpError::ValueNotFound("p".to_string()))
    );
    let ctxt = context(&[("u", "admin"), ("p", "secret")]);
    assert_eq!(
        auth.interpolate(&ctxt),
        Ok(ReqAuth::Basic {
            username: "admin".to_string(),
            password: "secret".to_string(),
        })
    );
}

#[test]
fn the_configuration_of_a_task_sets_the_transport() {
    let mut t = task(ReqMethod::Delete("u".to_string()));
    t.config = Some(ReqConfig {
        insecure: true,
        redirect: 2,
        ..ReqConfig::default()
    });
    assert_eq!(t.checked_request(), Some(t.request()));
    let r = t.request();
    assert_eq!(r.method, Method::Delete);
    assert!(r.insecure);
    assert_eq!(r.redirect, RedirectPolicy::Limited(2));
}

#[test]
fn every_method_keeps_its_kind_when_interpolated() {
    let ctxt = context(&[("u", "http://h")]);
    let all = [
        Method::Get,
        Method::Post,
        Method::Put,
        Method::Delete,
        Method::Head,
        Method::Options,
        Method::Connect,
        Method::Patch,
        Method::Trace,
    ];
    for m in all {
        let target = ReqMethod::new(m, "${u}/x".to_string());
        let out = target.interpolatte(&ctxt).unwrap();
        assert_eq!(out.method_and_url(), (m, "http://h/x"));
    }
    assert_eq!(
        ReqMethod::Put("${u}".to_string()).interpolatte(&ctxt),
        Ok(ReqMethod::Put("http://h".to_string()))
    );
}

#[test]
fn a_body_of_each_kind_is_interpolated() {
    let ctxt = context(&[("a", "1")]);
    assert_eq!(ReqBody::Empty.interpolate(&ctxt), Ok(ReqBody::Empty));
    assert_eq!(ReqBody::default(), ReqBody::Empty);
    assert_eq!(
        ReqBody::Plain("x${a}".to_string()).interpolate(&ctxt),
        Ok(ReqBody::Plain("x1".to_string()))
    );
    assert_eq!(
        ReqBody::Json(JsonValue::Array(vec![
            JsonValue::String("$a".to_string()),
            JsonValue::Number(JsonNumber::PosInt(1))
        ]))
        .interpolate(&ctxt),
        Ok(ReqBody::Json(JsonValue::Array(vec![
            JsonValue::String("1".to_string()),
            JsonValue::Number(JsonNumber::PosInt(1))
        ])))
    );
    let mut parts = StrMap::new();
    parts.insert("f$a".to_string(), ReqMultipartValue::File("/tmp/$a".to_string()));
    parts.insert("t".to_string(), ReqMultipartValue::Text("${a}".to_string()));
    let mut expected = StrMap::new();
    expected.insert("f1".to_string(), ReqMultipartValue::File("/tmp/1".to_string()));
    expected.insert("t".to_string(), ReqMultipartValue::Text("1".to_string()));
    assert_eq!(
        ReqBody::Multipart(parts).interpolate(&ctxt),
        Ok(ReqBody::Multipart(expected))
    );
    let mut form = StrMap::new();
    form.insert("k".to_string(), "${none}".to_string());
    assert_eq!(
        ReqBody::Form(form).interpolate(&ctxt),
        Err(InterpError::ValueNotFound("none".to_string()))
    );
}

#[test]
fn each_kind_of_body_has_its_content_type() {
    assert_eq!(ReqBody::Empty.content_type(), None);
    assert_eq!(ReqBody::Plain("x".to_string()).content_type(), None);
    assert_eq!(
        ReqBody::Json(JsonValue::Null).content_type(),
        Some("application/json")
    );
    assert_eq!(
        ReqBody::Form(StrMap::new()).content_type(),
        Some("application/x-www-form-urlencoded")
    );
    assert_eq!(
        ReqBody::Multipart(StrMap::new()).content_type(),
        Some("multipart/form-data")
    );
    let mut t = task(ReqMethod::Post("u".to_string()));
    t.body = ReqBody::Json(JsonValue::Bool(false));
    let r = t.request();
    assert_eq!(r.content_type, Some("application/json"));
    assert_eq!(r.body, &ReqBody::Json(JsonValue::Bool(false)));
}

#[test]
fn a_param_hands_out_its_texts_in_order() {
    let single = ReqParam::Single("a".to_string());
    assert_eq!(single.iter(), vec!["a"]);
    let many = ReqParam::Multiple(vec!["a".to_string(), "b".to_string()]);
    assert_eq!(many.iter(), vec!["a", "b"]);
    assert_eq!(many.into_iter(), vec!["a".to_string(), "b".to_string()]);
    assert_eq!(single.into_iter(), vec!["a".to_string()]);
}

#[test]
fn the_boundary_does_not_stand_in_the_body() {
    assert_eq!(choose_boundary("{}"), "REQUEST_BODY");
    assert_eq!(choose_boundary("a REQUEST_BODY b"), "__REQUEST_BODY__");
    assert_eq!(
        choose_boundary("__REQUEST_BODY__ and REQUEST_BODY"),
        "____REQUEST_BODY____"
    );
    assert_eq!(choose_boundary("_REQUEST_BODY_"), "__REQUEST_BODY__");
    assert_eq!(choose_boundary("REQUEST_BOD"), "REQUEST_BODY");
}

#[test]
fn a_post_with_a_json_body_is_exported_with_a_free_boundary() {
    let t = task(ReqMethod::Post("https://example.com/api".to_string()));
    let body = "{\"note\":\"REQUEST_BODY\"}";
    let built = BuiltRequest {
        method: "POST".to_string(),
        url: "https://example.com/api".to_string(),
        headers: vec![pair("content-type", "application/json")],
        body: Some(body.to_string()),
    };
    let out = t.to_curl(&built);
    assert_eq!(
        out,
        "curl -X POST 'https://example.com/api' \\\n\t-H 'content-type:application/json' \\\n\t-d @- << __REQUEST_BODY__\n{\"note\":\"REQUEST_BODY\"}\n__REQUEST_BODY__"
    );
    assert!(!body.contains("__REQUEST_BODY__"));
}

#[test]
fn the_flags_of_the_task_are_exported() {
    let mut t = task(ReqMethod::Get("u".to_string()));
    t.config = Some(ReqConfig {
        insecure: true,
        redirect: 5,
        ..ReqConfig::default()
    });
    let built = BuiltRequest {
        method: "GET".to_string(),
        url: "https://example.com/a?q=it's".to_string(),
        headers: vec![pair("x-a", "it's"), pair("x-b", "back\\slash")],
        body: Some(String::new()),
    };
    assert_eq!(
        t.to_curl(&built),
        "curl -k -L -X GET 'https://example.com/a?q=it\\'s' \\\n\t-H 'x-a:it\\'s' \\\n\t-H 'x-b:back\\\\slash'"
    );
    let plain = task(ReqMethod::Get("u".to_string()));
    let built = BuiltRequest {
        method: "GET".to_string(),
        url: "https://example.com/api/users".to_string(),
        headers: vec![],
        body: None,
    };
    assert_eq!(
        plain.to_curl(&built),
        "curl -X GET 'https://example.com/api/users'"
    );
}

#[test]
fn shell_escape_marks_backslash_and_quote() {
    assert_eq!(shell_escape("plain"), "plain");
    assert_eq!(shell_escape("a'b"), "a\\'b");
    assert_eq!(shell_escape("a\\b"), "a\\\\b");
    assert_eq!(shell_escape("\\'"), "\\\\\\'");
    assert_eq!(shell_escape(""), "");
}

#[test]
fn interpolation_leaves_the_context_as_it_is() {
    let ctxt = context(&[("a", "1")]);
    assert_eq!(interpolate("$a", &ctxt), Ok("1".to_string()));
    assert_eq!(interpolate("$b", &ctxt).is_err(), true);
    assert_eq!(interpolate("$a", &ctxt), Ok("1".to_string()));
    assert_eq!(ctxt.get("a").unwrap(), "1");
    assert_eq!(ctxt.get("b"), None);
}

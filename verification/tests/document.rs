use req::data::{EnvFile, ReqBody, ReqConfig, ReqMethod, ReqMultipartValue, ReqParam};
use req::decode::{
    decode_parts, DefinitionError, RawBody, RawPart, RawReq, RawTarget, RawTask,
    TaskDefinitionError,
};
use req::json::JsonValue;
use req::keyval::{parse_key_val, ParseKVError};
use req::strmap::StrMap;
use req::task::{Req, ReqTask};

fn target() -> RawTarget {
    RawTarget {
        get: None,
        post: None,
        put: None,
        delete: None,
        head: None,
        options: None,
        connect: None,
        patch: None,
        trace: None,
    }
}

fn raw_task(target: RawTarget, body: RawBody) -> RawTask {
    RawTask {
        target,
        headers: StrMap::new(),
        queries: StrMap::new(),
        body,
        description: String::new(),
        auth: None,
        config: None,
    }
}

fn get(url: &str) -> RawTarget {
    RawTarget {
        get: Some(url.to_string()),
        ..target()
    }
}

fn strings(pairs: &[(&str, &str)]) -> StrMap<String> {
    let mut map = StrMap::new();
    for (k, v) in pairs {
        map.insert(k.to_string(), v.to_string());
    }
    map
}

#[test]
fn exactly_one_method_makes_a_target() {
    assert_eq!(ReqMethod::from_raw(target()), Err(DefinitionError::MissingMethod));
    assert_eq!(
        ReqMethod::from_raw(get("http://h")),
        Ok(ReqMethod::Get("http://h".to_string()))
    );
    let trace = RawTarget {
        trace: Some("t".to_string()),
        ..target()
    };
    assert_eq!(ReqMethod::from_raw(trace), Ok(ReqMethod::Trace("t".to_string())));
    let two = RawTarget {
        post: Some("a".to_string()),
        patch: Some("b".to_string()),
        ..target()
    };
    assert_eq!(ReqMethod::from_raw(two), Err(DefinitionError::DuplicateMethod));
}

#[test]
fn at_most_one_kind_of_body_makes_a_body() {
    assert_eq!(ReqBody::from_raw(RawBody::empty()), Ok(ReqBody::Empty));
    let plain = RawBody {
        plain: Some("hello".to_string()),
        ..RawBody::empty()
    };
    assert_eq!(ReqBody::from_raw(plain), Ok(ReqBody::Plain("hello".to_string())));
    let json = RawBody {
        json: Some(JsonValue::Bool(true)),
        ..RawBody::empty()
    };
    assert_eq!(ReqBody::from_raw(json), Ok(ReqBody::Json(JsonValue::Bool(true))));
    let form = RawBody {
        form: Some(strings(&[("foo", "FOO")])),
        ..RawBody::empty()
    };
    assert_eq!(
        ReqBody::from_raw(form),
        Ok(ReqBody::Form(strings(&[("foo", "FOO")])))
    );
}

#[test]
fn two_kinds_of_body_are_a_conflict_before_any_interpolation() {
    let body = RawBody {
        plain: Some("${UNDEFINED}".to_string()),
        json: Some(JsonValue::String("${UNDEFINED}".to_string())),
        ..RawBody::empty()
    };
    assert_eq!(
        ReqTask::from_raw(raw_task(get("${UNDEFINED}"), body)),
        Err(DefinitionError::BodyConflict)
    );
    let body = RawBody {
        form: Some(StrMap::new()),
        multipart: Some(StrMap::new()),
        ..RawBody::empty()
    };
    assert_eq!(ReqBody::from_raw(body), Err(DefinitionError::BodyConflict));
    let body = RawBody {
        plain: Some(String::new()),
        json: Some(JsonValue::Null),
        ..RawBody::empty()
    };
    assert_eq!(
        ReqTask::from_raw(raw_task(target(), body)),
        Err(DefinitionError::BodyConflict)
    );
}

#[test]
fn a_part_is_a_text_or_the_path_of_a_file() {
    let mut raw = StrMap::new();
    raw.insert("uuid".to_string(), RawPart::Text("1234".to_string()));
    raw.insert(
        "upload".to_string(),
        RawPart::Table(strings(&[("file", "Cargo.toml")])),
    );
    let mut parts = StrMap::new();
    parts.insert("uuid".to_string(), ReqMultipartValue::Text("1234".to_string()));
    parts.insert(
        "upload".to_string(),
        ReqMultipartValue::File("Cargo.toml".to_string()),
    );
    assert_eq!(decode_parts(raw), Ok(parts));
}

#[test]
fn a_part_of_another_shape_is_refused_by_name() {
    let mut raw = StrMap::new();
    raw.insert("a".to_string(), RawPart::Text("ok".to_string()));
    raw.insert("b".to_string(), RawPart::Table(strings(&[("path", "x")])));
    raw.insert("c".to_string(), RawPart::Other);
    assert_eq!(
        decode_parts(raw),
        Err(DefinitionError::MalformedPart("b".to_string()))
    );
    let mut raw = StrMap::new();
    raw.insert(
        "two".to_string(),
        RawPart::Table(strings(&[("file", "x"), ("name", "y")])),
    );
    let body = RawBody {
        multipart: Some(raw),
        ..RawBody::empty()
    };
    assert_eq!(
        ReqBody::from_raw(body),
        Err(DefinitionError::MalformedPart("two".to_string()))
    );
    let mut raw = StrMap::new();
    raw.insert("none".to_string(), RawPart::Table(StrMap::new()));
    assert_eq!(
        decode_parts(raw),
        Err(DefinitionError::MalformedPart("none".to_string()))
    );
    let mut raw = StrMap::new();
    raw.insert("n".to_string(), RawPart::Other);
    assert_eq!(
        decode_parts(raw),
        Err(DefinitionError::MalformedPart("n".to_string()))
    );
}

#[test]
fn a_task_is_made_of_its_fields() {
    let mut raw = raw_task(
        RawTarget {
            post: Some("http://h/p".to_string()),
            ..target()
        },
        RawBody {
            plain: Some("hello".to_string()),
            ..RawBody::empty()
        },
    );
    raw.description = "says hello".to_string();
    raw.headers
        .insert("FOO".to_string(), ReqParam::Multiple(vec!["BAR".to_string()]));
    let task = ReqTask::from_raw(raw).unwrap();
    let mut headers = StrMap::new();
    headers.insert("FOO".to_string(), ReqParam::Multiple(vec!["BAR".to_string()]));
    assert_eq!(
        task,
        ReqTask {
            method: ReqMethod::Post("http://h/p".to_string()),
            headers,
            queries: StrMap::new(),
            body: ReqBody::Plain("hello".to_string()),
            description: "says hello".to_string(),
            auth: None,
            config: None,
        }
    );
}

#[test]
fn a_document_names_the_task_that_is_not_well_defined() {
    let mut tasks = StrMap::new();
    tasks.insert("b".to_string(), raw_task(target(), RawBody::empty()));
    tasks.insert("a".to_string(), raw_task(get("u"), RawBody::empty()));
    tasks.insert(
        "c".to_string(),
        raw_task(
            get("u"),
            RawBody {
                plain: Some(String::new()),
                form: Some(StrMap::new()),
                ..RawBody::empty()
            },
        ),
    );
    let raw = RawReq {
        tasks,
        variables: StrMap::new(),
        config: None,
    };
    let err = Req::from_raw(raw).unwrap_err();
    assert_eq!(
        err,
        TaskDefinitionError {
            task: "b".to_string(),
            error: DefinitionError::MissingMethod,
        }
    );
    assert_eq!(
        err.message(),
        "task \"b\": missing definition of method and url"
    );
}

#[test]
fn definition_errors_say_what_is_wrong() {
    assert_eq!(
        DefinitionError::MissingMethod.message(),
        "missing definition of method and url"
    );
    assert_eq!(
        DefinitionError::DuplicateMethod.message(),
        "duplicate definition of method and url"
    );
    assert_eq!(
        DefinitionError::BodyConflict.message(),
        "more than one kind of body is defined"
    );
    assert_eq!(
        DefinitionError::MalformedPart("p".to_string()).message(),
        "malformed multipart entry \"p\""
    );
}

#[test]
fn a_document_lists_its_tasks_by_name() {
    let mut tasks = StrMap::new();
    tasks.insert("b".to_string(), raw_task(get("u"), RawBody::empty()));
    let mut first = raw_task(get("u"), RawBody::empty());
    first.description = "first".to_string();
    tasks.insert("a".to_string(), first);
    let raw = RawReq {
        tasks,
        variables: strings(&[("v", "1")]),
        config: None,
    };
    let req = Req::from_raw(raw).unwrap();
    assert_eq!(req.display_tasks(), "a\tfirst\nb\t<NO DESCRIPTION>");
    assert_eq!(
        req.list_tasks(),
        vec![
            ("a".to_string(), "first".to_string()),
            ("b".to_string(), String::new())
        ]
    );
    assert_eq!(req.variables, strings(&[("v", "1")]));
    let empty = Req {
        tasks: StrMap::new(),
        variables: StrMap::new(),
        config: None,
    };
    assert_eq!(empty.display_tasks(), "");
}

#[test]
fn later_values_replace_earlier_ones() {
    let req = Req {
        tasks: StrMap::new(),
        variables: strings(&[("PATH", "/from-document"), ("KEEP", "kept")]),
        config: None,
    };
    let req = req.with_values(vec![
        ("PATH".to_string(), "/from-env".to_string()),
        ("NEW".to_string(), "new".to_string()),
        ("PATH".to_string(), "/from-var".to_string()),
    ]);
    assert_eq!(
        req.variables,
        strings(&[("KEEP", "kept"), ("NEW", "new"), ("PATH", "/from-var")])
    );
}

#[test]
fn the_document_says_which_file_of_variables_to_read() {
    let with = |env_file: EnvFile| Req {
        tasks: StrMap::new(),
        variables: StrMap::new(),
        config: Some(ReqConfig {
            env_file,
            ..ReqConfig::default()
        }),
    };
    assert_eq!(with(EnvFile::Bool(true)).env_file(), Some(".env"));
    assert_eq!(with(EnvFile::Bool(false)).env_file(), None);
    assert_eq!(with(EnvFile::Path("p.env".to_string())).env_file(), Some("p.env"));
    let without = Req {
        tasks: StrMap::new(),
        variables: StrMap::new(),
        config: None,
    };
    assert_eq!(without.env_file(), None);
}

#[test]
fn key_and_value_are_split_at_the_first_equals_sign() {
    assert_eq!(
        parse_key_val("KEY=VALUE"),
        Ok(("KEY".to_string(), "VALUE".to_string()))
    );
    assert_eq!(
        parse_key_val("a=b=c"),
        Ok(("a".to_string(), "b=c".to_string()))
    );
    assert_eq!(parse_key_val("="), Ok((String::new(), String::new())));
    assert_eq!(parse_key_val("k="), Ok(("k".to_string(), String::new())));
    assert_eq!(
        parse_key_val("caf\u{e9}=\u{1f980}"),
        Ok(("caf\u{e9}".to_string(), "\u{1f980}".to_string()))
    );
    let err = parse_key_val("novalue").unwrap_err();
    assert_eq!(err, ParseKVError::InvalidFormat("novalue".to_string()));
    assert_eq!(err.message(), "no `=` found in `novalue`");
}

#[test]
fn a_map_is_walked_in_the_order_of_its_keys() {
    let mut map = StrMap::new();
    map.insert("b".to_string(), 2);
    map.insert("a".to_string(), 1);
    map.insert("c".to_string(), 3);
    map.insert("ab".to_string(), 4);
    map.insert("b".to_string(), 5);
    map.insert("B".to_string(), 6);
    map.insert("\u{e9}".to_string(), 7);
    map.insert("".to_string(), 8);
    assert_eq!(map.len(), 7);
    let keys: Vec<&str> = (0..map.len()).map(|i| map.key_at(i).as_str()).collect();
    assert_eq!(keys, vec!["", "B", "a", "ab", "b", "c", "\u{e9}"]);
    let values: Vec<i32> = (0..map.len()).map(|i| *map.value_at(i)).collect();
    assert_eq!(values, vec![8, 6, 1, 4, 5, 3, 7]);
    assert_eq!(map.get("b"), Some(&5));
    assert_eq!(map.get("z"), None);
    assert_eq!(map.find("ab"), Some(3));
    assert!(map.contains_key(""));
    assert!(!map.contains_key("A"));
    let entries = map.into_entries();
    assert_eq!(entries[0], (String::new(), 8));
    assert_eq!(entries.len(), 7);
}

use req::interpolation::{create_interpolation_context, InterpContext, InterpError};
use req::json::{interpolate_toml_value, JsonNumber, JsonValue};
use req::strmap::StrMap;

fn context(pairs: &[(&str, &str)]) -> InterpContext {
    let mut map = StrMap::new();
    for (k, v) in pairs {
        map.insert(k.to_string(), v.to_string());
    }
    create_interpolation_context(map).unwrap()
}

fn text(s: &str) -> JsonValue {
    JsonValue::String(s.to_string())
}

fn number(n: u64) -> JsonValue {
    JsonValue::Number(JsonNumber::PosInt(n))
}

fn object(pairs: Vec<(&str, JsonValue)>) -> JsonValue {
    let mut map = StrMap::new();
    for (k, v) in pairs {
        map.insert(k.to_string(), v);
    }
    JsonValue::Object(map)
}

#[test]
fn test_interpolate_toml_value_string() {
    let ctxt = context(&[("name", "world")]);

    let input = text("Hello, ${name}!");
    let result = interpolate_toml_value(&input, &ctxt).unwrap();
    assert_eq!(result, text("Hello, world!"));
}

#[test]
fn test_interpolate_toml_value_array() {
    let ctxt = context(&[("x", "foo"), ("y", "bar")]);

    let input = JsonValue::Array(vec![text("${x}"), text("${y}"), text("baz")]);
    let result = interpolate_toml_value(&input, &ctxt).unwrap();
    assert_eq!(
        result,
        JsonValue::Array(vec![text("foo"), text("bar"), text("baz")])
    );
}

#[test]
fn test_interpolate_toml_value_object() {
    let ctxt = context(&[("key", "mykey"), ("value", "myvalue")]);

    let input = object(vec![("${key}", text("${value}")), ("static", text("data"))]);
    let result = interpolate_toml_value(&input, &ctxt).unwrap();
    assert_eq!(
        result,
        object(vec![("mykey", text("myvalue")), ("static", text("data"))])
    );
}

#[test]
fn test_interpolate_toml_value_nested() {
    let ctxt = context(&[("user", "alice"), ("age", "30")]);

    let input = object(vec![
        (
            "users",
            JsonValue::Array(vec![
                object(vec![("name", text("${user}")), ("age", text("${age}"))]),
                object(vec![("name", text("bob")), ("age", text("25"))]),
            ]),
        ),
        ("count", number(2)),
    ]);
    let result = interpolate_toml_value(&input, &ctxt).unwrap();
    assert_eq!(
        result,
        object(vec![
            (
                "users",
                JsonValue::Array(vec![
                    object(vec![("name", text("alice")), ("age", text("30"))]),
                    object(vec![("name", text("bob")), ("age", text("25"))]),
                ]),
            ),
            ("count", number(2)),
        ])
    );
}

#[test]
fn test_interpolate_toml_value_preserves_non_string() {
    let ctxt = context(&[]);

    let build = || {
        object(vec![
            ("number", number(42)),
            ("float", JsonValue::Number(JsonNumber::Float(0.1f64.to_bits()))),
            ("bool", JsonValue::Bool(true)),
            ("null", JsonValue::Null),
            ("array", JsonValue::Array(vec![number(1), number(2), number(3)])),
        ])
    };
    let input = build();
    let result = interpolate_toml_value(&input, &ctxt).unwrap();
    assert_eq!(result, input);
    assert_eq!(result, build());
}

#[test]
fn test_interpolate_toml_value_mixed_types() {
    let ctxt = context(&[("msg", "hello")]);

    let input = object(vec![
        ("message", text("${msg}")),
        ("count", number(5)),
        ("active", JsonValue::Bool(true)),
        (
            "items",
            JsonValue::Array(vec![text("${msg}"), number(123), JsonValue::Bool(false)]),
        ),
    ]);
    let result = interpolate_toml_value(&input, &ctxt).unwrap();
    assert_eq!(
        result,
        object(vec![
            ("message", text("hello")),
            ("count", number(5)),
            ("active", JsonValue::Bool(true)),
            (
                "items",
                JsonValue::Array(vec![text("hello"), number(123), JsonValue::Bool(false)]),
            ),
        ])
    );
}

#[test]
fn json_negative_number_is_kept() {
    let ctxt = context(&[("a", "b")]);
    let input = JsonValue::Array(vec![JsonValue::Number(JsonNumber::NegInt(-7)), text("$a")]);
    assert_eq!(
        interpolate_toml_value(&input, &ctxt),
        Ok(JsonValue::Array(vec![
            JsonValue::Number(JsonNumber::NegInt(-7)),
            text("b")
        ]))
    );
}

#[test]
fn json_key_is_interpolated_before_its_value() {
    let ctxt = context(&[]);
    let input = object(vec![("${k}", text("${v}"))]);
    assert_eq!(
        interpolate_toml_value(&input, &ctxt),
        Err(InterpError::ValueNotFound("k".to_string()))
    );
}

#[test]
fn json_first_failing_item_decides() {
    let ctxt = context(&[("a", "1")]);
    let input = JsonValue::Array(vec![text("${a}"), text("${b}"), text("${c}")]);
    assert_eq!(
        interpolate_toml_value(&input, &ctxt),
        Err(InterpError::ValueNotFound("b".to_string()))
    );
}

#[test]
fn json_keys_that_become_equal_keep_the_later_entry() {
    let ctxt = context(&[("x", "same"), ("y", "same")]);
    let input = object(vec![("${x}", text("first")), ("${y}", text("second"))]);
    assert_eq!(
        interpolate_toml_value(&input, &ctxt),
        Ok(object(vec![("same", text("second"))]))
    );
}

use req::interpolation::{create_interpolation_context, interpolate, InterpError};
use req::strmap::StrMap;

fn store(pairs: &[(&str, &str)]) -> StrMap<String> {
    let mut map = StrMap::new();
    for (k, v) in pairs {
        map.insert(k.to_string(), v.to_string());
    }
    map
}

#[test]
fn test_interpolate_string() {
    let ctxt = store(&[("greeting", "hello"), ("name", "world")]);
    let ctxt = create_interpolation_context(ctxt).unwrap();
    assert_eq!(
        interpolate("${greeting}, ${name}!", &ctxt),
        Ok(String::from("hello, world!")),
    );
}

#[test]
fn test_escape_dollar() {
    let ctxt = store(&[("foo", "bar"), ("hoge", "fuga")]);
    let ctxt = create_interpolation_context(ctxt).unwrap();
    assert_eq!(
        interpolate(
            "this is interpolate => ${foo}, this is not => $${hoge}",
            &ctxt
        ),
        Ok(String::from(
            "this is interpolate => bar, this is not => ${hoge}"
        )),
    );
}

#[test]
fn test_create_interpolation_context_simple() {
    let vars = store(&[("key1", "value1"), ("key2", "value2")]);

    let ctxt = create_interpolation_context(vars).unwrap();

    assert_eq!(ctxt.get("key1").unwrap(), "value1");
    assert_eq!(ctxt.get("key2").unwrap(), "value2");
}

#[test]
fn test_create_interpolation_context_with_references() {
    let vars = store(&[("base", "hello"), ("derived", "${base} world")]);

    let ctxt = create_interpolation_context(vars).unwrap();

    assert_eq!(ctxt.get("base").unwrap(), "hello");
    assert_eq!(ctxt.get("derived").unwrap(), "hello world");
}

#[test]
fn test_create_interpolation_context_multiple_levels() {
    let vars = store(&[("a", "foo"), ("b", "${a}bar"), ("c", "${b}baz")]);

    let ctxt = create_interpolation_context(vars).unwrap();

    assert_eq!(ctxt.get("a").unwrap(), "foo");
    assert_eq!(ctxt.get("b").unwrap(), "foobar");
    assert_eq!(ctxt.get("c").unwrap(), "foobarbaz");
}

#[test]
fn test_create_interpolation_context_circular_reference() {
    let vars = store(&[("a", "${b}"), ("b", "${a}")]);

    let result = create_interpolation_context(vars);

    assert!(result.is_err());
    match result {
        Err(InterpError::CircularReference(_)) => (),
        _ => panic!("Expected CircularReference error"),
    }
}

#[test]
fn test_create_interpolation_context_self_reference() {
    let vars = store(&[("a", "${a}")]);

    let result = create_interpolation_context(vars);

    assert!(result.is_err());
    match result {
        Err(InterpError::CircularReference(key)) => {
            assert_eq!(key, "a");
        }
        _ => panic!("Expected CircularReference error"),
    }
}

#[test]
fn test_create_interpolation_context_undefined_variable() {
    let vars = store(&[("a", "${undefined}")]);

    let result = create_interpolation_context(vars);

    assert!(result.is_err());
    match result {
        Err(InterpError::ValueNotFound(key)) => {
            assert_eq!(key, "undefined");
        }
        _ => panic!("Expected ValueNotFound error"),
    }
}

#[test]
fn test_create_interpolation_context_complex_interpolation() {
    let vars = store(&[
        ("host", "example.com"),
        ("port", "8080"),
        ("base_url", "https://${host}:${port}"),
        ("api_url", "${base_url}/api"),
    ]);

    let ctxt = create_interpolation_context(vars).unwrap();

    assert_eq!(ctxt.get("host").unwrap(), "example.com");
    assert_eq!(ctxt.get("port").unwrap(), "8080");
    assert_eq!(ctxt.get("base_url").unwrap(), "https://example.com:8080");
    assert_eq!(ctxt.get("api_url").unwrap(), "https://example.com:8080/api");
}

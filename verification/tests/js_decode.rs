use hq::js_decode::{decode_js_string, extract_js_variable, JsValue};

fn json(s: &str) -> serde_json::Value {
    serde_json::from_str(s).unwrap()
}

// ==================== decode_js_string tests ====================

#[test]
fn test_hex_escapes() {
    let input = r#"[\x22Salary\x22:\x2250000$\x22]"#;
    let expected = r#"["Salary":"50000$"]"#;
    assert_eq!(decode_js_string(input).unwrap(), expected);
}

#[test]
fn test_unicode_escapes() {
    let input = "Title\\u2013Profil";
    let expected = "Title–Profil";
    assert_eq!(decode_js_string(input).unwrap(), expected);
}

#[test]
fn test_double_unicode_escapes() {
    let input = r#"Title\\u2013Profil"#;
    let expected = "Title–Profil";
    assert_eq!(decode_js_string(input).unwrap(), expected);
}

#[test]
fn test_invalid_escapes() {
    let input = r#"50000$\-80000$"#;
    let expected = "50000$-80000$";
    assert_eq!(decode_js_string(input).unwrap(), expected);
}

#[test]
fn test_combined() {
    let input = r#"[\x22Salary\x22:\x2250000$ \- 80000$\x22,\x22Langue\x22:[\x22Français\x22]]"#;
    let expected = r#"["Salary":"50000$ - 80000$","Langue":["Français"]]"#;
    assert_eq!(decode_js_string(input).unwrap(), expected);
}

// ==================== extract_js_variable tests ====================

#[test]
fn test_extract_simple_integer() {
    let script = "var count = 42;";
    let result = extract_js_variable(script, "var count").unwrap();
    match result {
        JsValue::Json(v) => assert_eq!(v, json("42")),
        _ => panic!("Expected Json value"),
    }
}

#[test]
fn test_extract_simple_float() {
    let script = "var price = 19.99;";
    let result = extract_js_variable(script, "var price").unwrap();
    match result {
        JsValue::Json(v) => assert_eq!(v, json("19.99")),
        _ => panic!("Expected Json value"),
    }
}

#[test]
fn test_extract_simple_string() {
    let script = r#"var message = "Hello World";"#;
    let result = extract_js_variable(script, "var message").unwrap();
    match result {
        JsValue::Json(v) => assert_eq!(v, json(r#""Hello World""#)),
        _ => panic!("Expected Json value"),
    }
}

#[test]
fn test_extract_boolean_true() {
    let script = "var enabled = true;";
    let result = extract_js_variable(script, "var enabled").unwrap();
    match result {
        JsValue::Json(v) => assert_eq!(v, json("true")),
        _ => panic!("Expected Json value"),
    }
}

#[test]
fn test_extract_boolean_false() {
    let script = "var disabled = false;";
    let result = extract_js_variable(script, "var disabled").unwrap();
    match result {
        JsValue::Json(v) => assert_eq!(v, json("false")),
        _ => panic!("Expected Json value"),
    }
}

#[test]
fn test_extract_null() {
    let script = "var empty = null;";
    let result = extract_js_variable(script, "var empty").unwrap();
    match result {
        JsValue::Json(v) => assert_eq!(v, json("null")),
        _ => panic!("Expected Json value"),
    }
}

#[test]
fn test_extract_json_object() {
    let script = r#"var config = {"debug": true, "name": "test"};"#;
    let result = extract_js_variable(script, "var config").unwrap();
    match result {
        JsValue::Json(v) => {
            assert_eq!(v["debug"], json("true"));
            assert_eq!(v["name"], json(r#""test""#));
        },
        _ => panic!("Expected Json value"),
    }
}

#[test]
fn test_extract_json_array() {
    let script = r#"var items = [1, 2, 3, "hello"];"#;
    let result = extract_js_variable(script, "var items").unwrap();
    match result {
        JsValue::Json(v) => {
            assert_eq!(v, json(r#"[1, 2, 3, "hello"]"#));
        },
        _ => panic!("Expected Json value"),
    }
}

#[test]
fn test_extract_nested_json() {
    let script = r#"var data = {"users": [{"name": "Alice"}, {"name": "Bob"}]};"#;
    let result = extract_js_variable(script, "var data").unwrap();
    match result {
        JsValue::Json(v) => {
            assert_eq!(v["users"][0]["name"], json(r#""Alice""#));
            assert_eq!(v["users"][1]["name"], json(r#""Bob""#));
        },
        _ => panic!("Expected Json value"),
    }
}

#[test]
fn test_extract_const_keyword() {
    let script = r#"const API_KEY = "abc123";"#;
    let result = extract_js_variable(script, "const API_KEY").unwrap();
    match result {
        JsValue::Json(v) => assert_eq!(v, json(r#""abc123""#)),
        _ => panic!("Expected Json value"),
    }
}

#[test]
fn test_extract_let_keyword() {
    let script = "let counter = 100;";
    let result = extract_js_variable(script, "let counter").unwrap();
    match result {
        JsValue::Json(v) => assert_eq!(v, json("100")),
        _ => panic!("Expected Json value"),
    }
}

#[test]
fn test_extract_json_parse_single_quote() {
    let script = r#"var jobs = JSON.parse('[{"id": 1}]');"#;
    let result = extract_js_variable(script, "var jobs").unwrap();
    match result {
        JsValue::Json(v) => {
            assert_eq!(v[0]["id"], json("1"));
        },
        _ => panic!("Expected Json value"),
    }
}

#[test]
fn test_extract_json_parse_double_quote() {
    let script = r#"var jobs = JSON.parse("[{\"id\": 2}]");"#;
    let result = extract_js_variable(script, "var jobs").unwrap();
    match result {
        JsValue::Json(v) => {
            assert_eq!(v[0]["id"], json("2"));
        },
        _ => panic!("Expected Json value"),
    }
}

#[test]
fn test_extract_json_parse_with_hex_escapes() {
    let script = r#"var data = JSON.parse('[{\x22name\x22:\x22Test\x22}]');"#;
    let result = extract_js_variable(script, "var data").unwrap();
    match result {
        JsValue::Json(v) => {
            assert_eq!(v[0]["name"], json(r#""Test""#));
        },
        _ => panic!("Expected Json value"),
    }
}

#[test]
fn test_extract_json_parse_with_unicode_escapes() {
    let script = "var title = JSON.parse('{\"name\": \"Caf\\u00e9\"}');";
    let result = extract_js_variable(script, "var title").unwrap();
    match result {
        JsValue::Json(v) => {
            assert_eq!(v["name"], json(r#""Café""#));
        },
        _ => panic!("Expected Json value"),
    }
}

#[test]
fn test_extract_json_parse_complex() {
    // Simulates the career-page pattern of hex-escaped JSON.parse payloads
    let script = r#"var jobs = JSON.parse('[{\x22Salary\x22:\x2250000$\x22,\x22City\x22:\x22Montreal\x22}]');"#;
    let result = extract_js_variable(script, "var jobs").unwrap();
    match result {
        JsValue::Json(v) => {
            assert_eq!(v[0]["Salary"], json(r#""50000$""#));
            assert_eq!(v[0]["City"], json(r#""Montreal""#));
        },
        _ => panic!("Expected Json value"),
    }
}

#[test]
fn test_extract_variable_not_found() {
    let script = "var other = 123;";
    let result = extract_js_variable(script, "var missing");
    assert!(result.is_err());
}

#[test]
fn test_extract_among_multiple_vars() {
    let script = r#"
            var first = 1;
            var second = 2;
            var target = {"found": true};
            var fourth = 4;
        "#;
    let result = extract_js_variable(script, "var target").unwrap();
    match result {
        JsValue::Json(v) => {
            assert_eq!(v["found"], json("true"));
        },
        _ => panic!("Expected Json value"),
    }
}

#[test]
fn test_extract_multiline_json() {
    let script = "var config = {\n            \"name\": \"test\",\n            \"value\": 42\n        };";
    let result = extract_js_variable(script, "var config").unwrap();
    match result {
        JsValue::Json(v) => {
            assert_eq!(v["name"], json(r#""test""#));
            assert_eq!(v["value"], json("42"));
        },
        _ => panic!("Expected Json value"),
    }
}

#[test]
fn test_extract_raw_value_fallback() {
    // When the value can't be parsed as JSON, it comes back as raw text
    let script = "var expr = someFunction();";
    let result = extract_js_variable(script, "var expr").unwrap();
    match result {
        JsValue::Raw(s) => assert_eq!(s, "someFunction()"),
        _ => panic!("Expected Raw value"),
    }
}

#[test]
fn test_js_value_to_json_string() {
    let json_val = JsValue::Json(json(r#"{"key": "value"}"#));
    assert_eq!(json_val.to_json_string(), r#"{"key":"value"}"#);

    let raw_val = JsValue::Raw("hello".to_string());
    assert_eq!(raw_val.to_json_string(), r#""hello""#);
}

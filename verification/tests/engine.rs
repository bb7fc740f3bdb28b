use hq::js_decode::{decode_js_string, extract_js_variable, extract_json_parse, ExtractError,
    fix_mojibake, JsValue};
use hq::{balanced_region, compact_json_text, escape_json_control_chars, extract_all_elements,
    extract_all_text, extract_all_with_mode, extract_rsc_payloads, ExtractMode, HqConfig,
    QuoteConvention};
use hq::scan::extract_until_statement_end;

fn json(s: &str) -> serde_json::Value {
    serde_json::from_str(s).unwrap()
}

// ==================== decoder edge cases ====================

#[test]
fn test_decode_identity_without_backslashes() {
    let input = "plain text, no escapes: {\"a\": [1, 2]} 😀";
    assert_eq!(decode_js_string(input).unwrap(), input);
}

#[test]
fn test_decode_trailing_backslash() {
    assert_eq!(decode_js_string("abc\\").unwrap(), "abc\\");
}

#[test]
fn test_decode_standard_escapes() {
    assert_eq!(decode_js_string(r"a\nb\tc\rd\0e\'f\/g").unwrap(), "a\nb\tc\rd\0e'f/g");
}

#[test]
fn test_decode_unknown_escape_passes_through() {
    assert_eq!(decode_js_string(r"a\qb\zc").unwrap(), "aqbzc");
}

#[test]
fn test_decode_incomplete_hex_escape_fails() {
    assert_eq!(decode_js_string(r"\x2").unwrap_err(), ExtractError::MalformedEscape);
}

#[test]
fn test_decode_invalid_hex_digit_fails() {
    assert_eq!(decode_js_string(r"\xZZ").unwrap_err(), ExtractError::MalformedEscape);
}

#[test]
fn test_decode_incomplete_unicode_escape_fails() {
    assert_eq!(decode_js_string(r"\u123").unwrap_err(), ExtractError::MalformedEscape);
}

#[test]
fn test_decode_surrogate_code_point_fails() {
    assert_eq!(decode_js_string(r"\ud800").unwrap_err(), ExtractError::MalformedEscape);
}

// ==================== JSON.parse argument extraction ====================

#[test]
fn test_json_parse_direct() {
    let result = extract_json_parse(r#"JSON.parse('[1, 2]')"#).unwrap();
    match result {
        JsValue::Json(v) => assert_eq!(v, json("[1, 2]")),
        _ => panic!("Expected Json value"),
    }
}

#[test]
fn test_json_parse_bad_quote() {
    let result = extract_json_parse("JSON.parse(x)");
    assert_eq!(result.unwrap_err(), ExtractError::UnsupportedLiteral);
}

#[test]
fn test_decode_rare_control_escapes() {
    assert_eq!(decode_js_string(r"a\bb\fc\vd").unwrap(), "a\u{8}b\u{c}c\u{b}d");
}

#[test]
fn test_json_parse_nothing_after_paren() {
    let result = extract_json_parse("JSON.parse(");
    assert_eq!(result.unwrap_err(), ExtractError::UnsupportedLiteral);
}

#[test]
fn test_json_parse_missing_prefix() {
    let result = extract_json_parse("parse('1')");
    assert_eq!(result.unwrap_err(), ExtractError::UnsupportedLiteral);
}

#[test]
fn test_json_parse_unterminated_literal_is_lenient() {
    let result = extract_json_parse(r#"JSON.parse('{"a": 1}"#).unwrap();
    match result {
        JsValue::Json(v) => assert_eq!(v["a"], json("1")),
        _ => panic!("Expected Json value"),
    }
}

// ==================== statement scanning ====================

#[test]
fn test_statement_ends_at_semicolon() {
    assert_eq!(extract_until_statement_end("42; var x = 1;"), "42");
}

#[test]
fn test_statement_semicolon_inside_string_ignored() {
    assert_eq!(extract_until_statement_end("\"a;b\" ;rest"), "\"a;b\" ");
}

#[test]
fn test_statement_newline_continuation() {
    assert_eq!(extract_until_statement_end("1\n + 2\nnext"), "1\n + 2");
}

#[test]
fn test_statement_runs_to_end_of_input() {
    assert_eq!(extract_until_statement_end("someFunction()"), "someFunction()");
}

// ==================== balanced regions ====================

#[test]
fn test_balanced_region_literal_mode() {
    let region = balanced_region(r#"{"a":"}"}tail"#, QuoteConvention::Literal).unwrap();
    assert_eq!(region, r#"{"a":"}"}"#);
}

#[test]
fn test_balanced_region_escaped_mode() {
    let region = balanced_region(r#"{\"a\":\"}\"}tail"#, QuoteConvention::EscapedQuotes).unwrap();
    assert_eq!(region, r#"{\"a\":\"}\"}"#);
}

#[test]
fn test_balanced_region_bracket() {
    let region = balanced_region("[1, [2, 3], 4] extra", QuoteConvention::Literal).unwrap();
    assert_eq!(region, "[1, [2, 3], 4]");
}

#[test]
fn test_balanced_region_unclosed() {
    assert!(balanced_region(r#"{"a": 1"#, QuoteConvention::Literal).is_none());
}

// ==================== JSON repair ====================

#[test]
fn test_repair_escapes_controls_inside_strings() {
    assert_eq!(escape_json_control_chars("{\"a\":\"x\ny\"}"), "{\"a\":\"x\\ny\"}");
    assert_eq!(escape_json_control_chars("{\"a\":\"x\ty\"}"), "{\"a\":\"x\\ty\"}");
}

#[test]
fn test_repair_keeps_controls_outside_strings() {
    assert_eq!(escape_json_control_chars("\n{\"a\": 1}\n"), "\n{\"a\": 1}\n");
}

#[test]
fn test_repair_drops_other_controls_inside_strings() {
    assert_eq!(escape_json_control_chars("\"a\u{1}b\""), "\"ab\"");
}

#[test]
fn test_repair_is_idempotent_on_own_output() {
    let input = "{\"a\":\"x\ny\",\n\"b\":\"p\tq\u{2}\"}";
    let once = escape_json_control_chars(input);
    let twice = escape_json_control_chars(once.as_str());
    assert_eq!(twice, once);
}

// ==================== RSC payload extraction ====================

#[test]
fn test_rsc_single_payload() {
    let script = r#"self.__next_f.push([1,'1d:[[\"$\",\"div\",null,{\"productDisplay\":{\"id\":\"123\"}}]]\n']);"#;
    let matches = extract_rsc_payloads(script, "productDisplay");
    assert_eq!(matches.len(), 1);
    match &matches[0] {
        JsValue::Json(v) => assert_eq!(v["productDisplay"]["id"], json(r#""123""#)),
        _ => panic!("Expected Json value"),
    }
}

#[test]
fn test_rsc_two_payloads_in_order() {
    let script = r#"self.__next_f.push([1,'x:{\"rec\":{\"id\":1}}\n']);self.__next_f.push([1,'y:{\"rec\":{\"id\":2}}\n']);"#;
    let matches = extract_rsc_payloads(script, "rec");
    assert_eq!(matches.len(), 2);
    match &matches[0] {
        JsValue::Json(v) => assert_eq!(v["rec"]["id"], json("1")),
        _ => panic!("Expected Json value"),
    }
    match &matches[1] {
        JsValue::Json(v) => assert_eq!(v["rec"]["id"], json("2")),
        _ => panic!("Expected Json value"),
    }
}

#[test]
fn test_rsc_literal_convention() {
    let script = r#"window.data = {"payload":{"n":7}};"#;
    let matches = extract_rsc_payloads(script, "payload");
    assert_eq!(matches.len(), 1);
    match &matches[0] {
        JsValue::Json(v) => assert_eq!(v["payload"]["n"], json("7")),
        _ => panic!("Expected Json value"),
    }
}

#[test]
fn test_rsc_no_match_is_empty() {
    let matches = extract_rsc_payloads("var x = 1;", "absent");
    assert_eq!(matches.len(), 0);
}

// ==================== mojibake repair ====================

#[test]
fn test_fix_mojibake_decodes_misread_utf8() {
    assert_eq!(fix_mojibake("CafÃ©"), "Café");
}

#[test]
fn test_fix_mojibake_keeps_invalid_bytes() {
    assert_eq!(fix_mojibake("Ã"), "Ã");
}

// ==================== extraction modes ====================

#[test]
fn test_from_attr_variants() {
    assert!(matches!(ExtractMode::from_attr(None), ExtractMode::Html));
    assert!(matches!(ExtractMode::from_attr(Some("")), ExtractMode::Html));
    assert!(matches!(ExtractMode::from_attr(Some("@text")), ExtractMode::Text));
    assert!(matches!(ExtractMode::from_attr(Some("text")), ExtractMode::Text));
    match ExtractMode::from_attr(Some("@href")) {
        ExtractMode::Attribute(s) => assert_eq!(s, "href"),
        _ => panic!("Expected Attribute mode"),
    }
    match ExtractMode::from_attr(Some("src")) {
        ExtractMode::Attribute(s) => assert_eq!(s, "src"),
        _ => panic!("Expected Attribute mode"),
    }
}

#[test]
fn test_from_attr_list_variants() {
    assert!(matches!(ExtractMode::from_attr_list(&[]), ExtractMode::Html));
    match ExtractMode::from_attr_list(&["@href".to_string()]) {
        ExtractMode::Attribute(s) => assert_eq!(s, "href"),
        _ => panic!("Expected Attribute mode"),
    }
    match ExtractMode::from_attr_list(&["@href".to_string(), "text".to_string(), "src".to_string()])
    {
        ExtractMode::MultiAttribute(list) => {
            assert_eq!(list, vec!["href".to_string(), "@text".to_string(), "src".to_string()]);
        },
        _ => panic!("Expected MultiAttribute mode"),
    }
}

// ==================== HTML extraction ====================

#[test]
fn test_extract_all_elements_by_class() {
    let html = "<html><head></head><body><div class=\"hi\"><a href=\"/foo/bar\">Hello</a></div></body></html>";
    let results = extract_all_elements(html, ".hi", false).unwrap();
    assert_eq!(results, vec!["<div class=\"hi\"><a href=\"/foo/bar\">Hello</a></div>".to_string()]);
}

#[test]
fn test_extract_all_elements_text_only() {
    let html = "<html><body><p>  First  </p><p>Second</p></body></html>";
    let results = extract_all_elements(html, "p", true).unwrap();
    assert_eq!(results, vec!["First".to_string(), "Second".to_string()]);
}

#[test]
fn test_extract_all_text_drops_empty() {
    let html = "<html><body><p>   </p><p>kept</p></body></html>";
    let results = extract_all_text(html, "p").unwrap();
    assert_eq!(results, vec!["kept".to_string()]);
}

#[test]
fn test_extract_all_with_mode_attribute() {
    let html = "<html><body><a href=\"/one\">x</a><a href=\"/two\">y</a></body></html>";
    let mode = ExtractMode::Attribute("href".to_string());
    let results = extract_all_with_mode(html, "a", &mode).unwrap();
    assert_eq!(results, vec!["/one".to_string(), "/two".to_string()]);
}

#[test]
fn test_extract_all_with_mode_multi_attribute() {
    let html = "<html><body><a href=\"/foo\">Hello</a></body></html>";
    let mode = ExtractMode::MultiAttribute(vec!["href".to_string(), "@text".to_string()]);
    let results = extract_all_with_mode(html, "a", &mode).unwrap();
    assert_eq!(results, vec![r#"{"href":"/foo","text":"Hello"}"#.to_string()]);
}

#[test]
fn test_extract_all_text_bad_selector() {
    let result = extract_all_text("<html></html>", "[[[");
    assert_eq!(result.unwrap_err(), ExtractError::InvalidSelector);
}

// ==================== JSON compaction ====================

#[test]
fn test_compact_json_text_compacts() {
    let input = "\n{\n  \"name\": \"John Doe\",\n  \"role\": \"Engineer\"\n}\n";
    assert_eq!(compact_json_text(input), r#"{"name":"John Doe","role":"Engineer"}"#);
}

#[test]
fn test_compact_json_text_repairs_control_chars() {
    let input = "{\"t\": \"a\nb\"}";
    assert_eq!(compact_json_text(input), "{\"t\":\"a\\nb\"}");
}

#[test]
fn test_compact_json_text_keeps_non_json() {
    let input = "<div>not json</div>";
    assert_eq!(compact_json_text(input), input);
}

// ==================== configuration ====================

#[test]
fn test_hq_config_default() {
    let config = HqConfig::default();
    assert_eq!(config.selector, ":root");
    assert!(config.base.is_none());
    assert!(!config.text_only);
    assert!(!config.compact);
    assert!(config.remove_nodes.is_empty());
    assert!(config.attributes.is_empty());
}

// ==================== variable extraction extras ====================

#[test]
fn test_extract_variable_error_variant() {
    let err = extract_js_variable("var other = 1;", "var missing").unwrap_err();
    assert_eq!(err, ExtractError::VariableNotFound);
}

#[test]
fn test_extract_variable_pattern_is_trimmed() {
    let result = extract_js_variable("var n = 5;", "  var n  ").unwrap();
    match result {
        JsValue::Json(v) => assert_eq!(v, json("5")),
        _ => panic!("Expected Json value"),
    }
}

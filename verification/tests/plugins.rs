use notos::plugins::{
    base64_decode, base64_decode_action, base64_encode_action, format_json, json_format_action,
    pick_target, request, selected_text, written_text, Target,
};
use notos::sdk::{EditorContext, PluginAction};

fn ed(content: &str, selection: Option<(usize, usize)>) -> EditorContext<'_> {
    EditorContext { content, selection }
}

#[test]
fn selected_text_by_byte_offsets() {
    assert_eq!(selected_text("hello", 1, 3), Some("el"));
    assert_eq!(selected_text("hello", 0, 5), Some("hello"));
    assert_eq!(selected_text("hello", 2, 2), Some(""));
    assert_eq!(selected_text("héllo", 1, 3), Some("é"));
    assert_eq!(selected_text("héllo", 1, 2), None);
    assert_eq!(selected_text("hello", 3, 1), None);
    assert_eq!(selected_text("hello", 0, 6), None);
    for (start, end) in [(0, 0), (0, 2), (2, 4), (3, 3), (1, 6), (6, 7), (4, 2)] {
        assert_eq!(selected_text("aé€b", start, end), "aé€b".get(start..end));
    }
}

#[test]
fn target_is_the_selection_or_the_document() {
    assert!(matches!(pick_target(&ed("hello", Some((1, 3))), false), Target::Selection("el")));
    assert!(matches!(pick_target(&ed("hello", Some((2, 2))), false), Target::Whole("hello")));
    assert!(matches!(pick_target(&ed("hello", None), false), Target::Whole("hello")));
    assert!(matches!(pick_target(&ed("hello", Some((3, 9))), false), Target::Nothing));
    assert!(matches!(pick_target(&ed("", None), false), Target::Nothing));
    assert!(matches!(pick_target(&ed("", Some((0, 0))), false), Target::Nothing));
    assert!(matches!(pick_target(&ed("", None), true), Target::Whole("")));
    assert!(matches!(pick_target(&ed("", Some((0, 0))), true), Target::Whole("")));
}

#[test]
fn request_goes_where_the_text_came_from() {
    let done = || Some("new".to_string());
    assert_eq!(
        request(&Target::Selection("old"), done()),
        PluginAction::ReplaceSelection("new".to_string())
    );
    assert_eq!(request(&Target::Whole("old"), done()), PluginAction::ReplaceAll("new".to_string()));
    assert_eq!(request(&Target::Nothing, done()), PluginAction::Nothing);
    assert_eq!(request(&Target::Whole("old"), None), PluginAction::Nothing);
    assert_eq!(request(&Target::Selection("old"), None), PluginAction::Nothing);
}

#[test]
fn base64_encodes_selection_or_document() {
    assert_eq!(
        base64_encode_action(&ed("hello world", None)),
        PluginAction::ReplaceAll("aGVsbG8gd29ybGQ=".to_string())
    );
    assert_eq!(
        base64_encode_action(&ed("hello world", Some((0, 5)))),
        PluginAction::ReplaceSelection("aGVsbG8=".to_string())
    );
    assert_eq!(
        base64_encode_action(&ed("hi", Some((1, 1)))),
        PluginAction::ReplaceAll("aGk=".to_string())
    );
    assert_eq!(base64_encode_action(&ed("", None)), PluginAction::Nothing);
    assert_eq!(base64_encode_action(&ed("abc", Some((2, 7)))), PluginAction::Nothing);
}

#[test]
fn base64_decodes_text() {
    assert_eq!(base64_decode("aGVsbG8="), Some("hello".to_string()));
    assert_eq!(base64_decode("  aGVsbG8=\n"), Some("hello".to_string()));
    assert_eq!(base64_decode(""), Some(String::new()));
    assert_eq!(base64_decode("aGVsbG8"), None);
    assert_eq!(base64_decode("not base64!"), None);
    assert_eq!(base64_decode("/w=="), None);
    assert_eq!(base64_decode("w6k="), Some("é".to_string()));
}

#[test]
fn base64_decodes_selection_or_document() {
    assert_eq!(
        base64_decode_action(&ed("aGVsbG8=", None)),
        PluginAction::ReplaceAll("hello".to_string())
    );
    assert_eq!(
        base64_decode_action(&ed("x aGk= y", Some((2, 6)))),
        PluginAction::ReplaceSelection("hi".to_string())
    );
    assert_eq!(base64_decode_action(&ed("???", None)), PluginAction::Nothing);
    assert_eq!(base64_decode_action(&ed("", None)), PluginAction::Nothing);
    assert_eq!(base64_decode_action(&ed("aGk=", Some((0, 9)))), PluginAction::Nothing);
}

#[test]
fn json_is_indented() {
    assert_eq!(format_json("{\"a\":1}"), Some("{\n  \"a\": 1\n}".to_string()));
    assert_eq!(format_json("[1,2]"), Some("[\n  1,\n  2\n]".to_string()));
    assert_eq!(format_json(" null "), Some("null".to_string()));
    assert_eq!(format_json("{a:1}"), None);
    assert_eq!(format_json(""), None);
}

#[test]
fn json_formats_selection_or_document() {
    assert_eq!(
        json_format_action(&ed("[1]", None)),
        PluginAction::ReplaceAll("[\n  1\n]".to_string())
    );
    assert_eq!(
        json_format_action(&ed("x [1] y", Some((2, 5)))),
        PluginAction::ReplaceSelection("[\n  1\n]".to_string())
    );
    assert_eq!(json_format_action(&ed("x [1] y", None)), PluginAction::Nothing);
    assert_eq!(json_format_action(&ed("", None)), PluginAction::Nothing);
    assert_eq!(json_format_action(&ed("[1]", Some((1, 9)))), PluginAction::Nothing);
}

#[test]
fn written_text_is_kept_and_errors_are_dropped() {
    assert_eq!(written_text(Ok("{}".to_string())), Some("{}".to_string()));
    let failed = serde_json::from_str::<serde_json::Value>("{").map(|_| String::new());
    assert!(failed.is_err());
    assert_eq!(written_text(failed), None);
}

#[test]
fn json_keeps_what_the_document_holds() {
    assert_eq!(
        format_json("{\"b\": [true, null], \"a\": \"x\"}"),
        Some("{\n  \"a\": \"x\",\n  \"b\": [\n    true,\n    null\n  ]\n}".to_string())
    );
    assert_eq!(format_json("[1] trailing"), None);
    assert_eq!(format_json("1.50"), Some("1.5".to_string()));
}

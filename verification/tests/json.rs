use startwrt_ctrl::json::{json_arr, json_obj, json_str, pretty, Json};

#[test]
fn pretty_prints_with_two_space_indentation() {
    let doc = json_obj(vec![
        ("name".to_string(), json_str("x")),
        ("ids".to_string(), json_arr(vec![Json::Num(1), Json::Num(2)])),
    ]);
    let text = pretty(&doc);
    let v: serde_json::Value = serde_json::from_str(&text).unwrap();
    assert_eq!(v["name"], "x");
    assert_eq!(v["ids"][1], 2);
    assert!(text.contains("\n  \"name\": \"x\""));
}

#[test]
fn pretty_prints_scalars() {
    assert_eq!(pretty(&json_str("a\"b")), "\"a\\\"b\"");
    assert_eq!(pretty(&Json::Num(7)), "7");
    assert_eq!(pretty(&json_arr(Vec::new())), "[]");
    assert_eq!(pretty(&json_obj(Vec::new())), "{}");
}

use lit_html::{CallbackHandle, JsObject, TemplateData, TemplateValue};

#[test]
fn new_data_is_empty() {
    let d = TemplateData::new();
    assert_eq!(d.len(), 0);
    assert_eq!(d.get("name"), None);
    assert!(d.entries().is_empty());
}

#[test]
fn read_after_write() {
    let mut d = TemplateData::new();
    d.set("name", TemplateValue::text("Ferris"));
    assert_eq!(d.get("name"), Some(&TemplateValue::Text(String::from("Ferris"))));
    assert_eq!(d.get("other"), None);
}

#[test]
fn last_write_wins_in_place() {
    let mut d = TemplateData::new();
    d.set("count", TemplateValue::Unsigned(1));
    d.set("increment", TemplateValue::Callback(CallbackHandle { id: 3 }));
    d.set("count", TemplateValue::Unsigned(2));
    assert_eq!(d.len(), 2);
    assert_eq!(d.get("count"), Some(&TemplateValue::Unsigned(2)));
    let names: Vec<&str> = d.entries().iter().map(|e| e.0.as_str()).collect();
    assert_eq!(names, vec!["count", "increment"]);
}

#[test]
fn other_names_unchanged() {
    let mut d = TemplateData::new();
    d.set("a", TemplateValue::Signed(-5));
    d.set("b", TemplateValue::Flag(true));
    d.set("a", TemplateValue::Signed(7));
    assert_eq!(d.get("b"), Some(&TemplateValue::Flag(true)));
    assert_eq!(d.get("a"), Some(&TemplateValue::Signed(7)));
}

#[test]
fn every_value_kind() {
    let mut d = TemplateData::new();
    let t = JsObject { handle: 9 };
    d.set("s", TemplateValue::text(""));
    d.set("u", TemplateValue::Unsigned(u32::MAX));
    d.set("i", TemplateValue::Signed(i32::MIN));
    d.set("n", TemplateValue::Number(2.5f64.to_bits()));
    d.set("f", TemplateValue::Flag(false));
    d.set("o", TemplateValue::Object(t));
    d.set("v", TemplateValue::Objects(vec![t, JsObject { handle: 10 }]));
    d.set("c", TemplateValue::Callback(CallbackHandle { id: 0 }));
    assert_eq!(d.len(), 8);
    assert_eq!(d.get("n"), Some(&TemplateValue::Number(2.5f64.to_bits())));
    assert_eq!(
        d.get("v"),
        Some(&TemplateValue::Objects(vec![JsObject { handle: 9 }, JsObject { handle: 10 }]))
    );
    let names: Vec<&str> = d.entries().iter().map(|e| e.0.as_str()).collect();
    assert_eq!(names, vec!["s", "u", "i", "n", "f", "o", "v", "c"]);
}

#[test]
fn names_are_compared_exactly() {
    let mut d = TemplateData::new();
    d.set("Name", TemplateValue::Unsigned(1));
    d.set("name", TemplateValue::Unsigned(2));
    d.set("näme", TemplateValue::Unsigned(3));
    assert_eq!(d.len(), 3);
    assert_eq!(d.get("Name"), Some(&TemplateValue::Unsigned(1)));
    assert_eq!(d.get("näme"), Some(&TemplateValue::Unsigned(3)));
}

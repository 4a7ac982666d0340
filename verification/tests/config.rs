use marketplace_builder::config::load_api_document;
use marketplace_builder::config::merge_extensions;
use marketplace_builder::config::merge_toml;
use marketplace_builder::config::merged;
use marketplace_builder::config::TomlValue;

fn leaf(s: &str) -> TomlValue {
    TomlValue::Leaf(s.to_string())
}

fn table(entries: Vec<(&str, TomlValue)>) -> TomlValue {
    TomlValue::Table(entries.into_iter().map(|(k, v)| (k.to_string(), v)).collect())
}

fn render(v: &TomlValue) -> String {
    match v {
        TomlValue::Leaf(s) => s.clone(),
        TomlValue::Table(es) => {
            let inner: Vec<String> = es.iter().map(|(k, v)| format!("{}={}", k, render(v))).collect();
            format!("{{{}}}", inner.join(","))
        }
    }
}

#[test]
fn merge_adds_missing_keys_and_keeps_set_values() {
    let mut into = table(vec![("a", leaf("1")), ("route", table(vec![("path", leaf("\"/x\""))]))]);
    let from = table(vec![
        ("a", leaf("2")),
        ("b", leaf("3")),
        ("route", table(vec![("path", leaf("\"/y\"")), ("doc", leaf("\"d\""))])),
    ]);
    merge_toml(&mut into, from);
    assert_eq!(render(&into), "{a=1,route={path=\"/x\",doc=\"d\"},b=3}");
}

#[test]
fn merge_into_a_leaf_or_from_a_leaf_changes_nothing() {
    let r = merged(leaf("7"), table(vec![("a", leaf("1"))]));
    assert_eq!(render(&r), "7");
    let r = merged(table(vec![("a", leaf("1"))]), leaf("9"));
    assert_eq!(render(&r), "{a=1}");
}

#[test]
fn merge_with_an_empty_table_changes_nothing() {
    let r = merged(table(vec![("a", leaf("1")), ("b", leaf("2"))]), table(vec![]));
    assert_eq!(render(&r), "{a=1,b=2}");
}

#[test]
fn extensions_merge_in_turn() {
    let base = table(vec![("meta", table(vec![("name", leaf("\"api\""))]))]);
    let ext1 = table(vec![("meta", table(vec![("version", leaf("\"1\""))]))]);
    let ext2 = table(vec![("meta", table(vec![("version", leaf("\"2\"")), ("name", leaf("\"z\""))])), ("x", leaf("0"))]);
    let r = merge_extensions(base, vec![ext1, ext2]);
    assert_eq!(render(&r), "{meta={name=\"api\",version=\"1\"},x=0}");
    let r = merge_extensions(leaf("5"), vec![]);
    assert_eq!(render(&r), "5");
}

#[test]
fn api_document_is_parsed_and_extended() {
    let text = "[route]\npath = \"/x\"\n[meta]\nname = \"api\"\n";
    let ext = table(vec![("meta", table(vec![("version", leaf("1")), ("name", leaf("\"z\""))]))]);
    let r = load_api_document(text, vec![ext]).unwrap();
    // a parsed table's keys come in sorted order
    assert_eq!(render(&r), "{meta={name=\"api\",version=1},route={path=\"/x\"}}");
}

#[test]
fn api_document_without_extensions_is_the_parsed_text() {
    let r = load_api_document("b = 2\na = true\n", vec![]).unwrap();
    assert_eq!(render(&r), "{a=true,b=2}");
    let r = load_api_document("", vec![table(vec![("x", leaf("0"))])]).unwrap();
    assert_eq!(render(&r), "{x=0}");
}

#[test]
fn api_document_that_does_not_parse_is_an_error() {
    assert!(load_api_document("= oops", vec![]).is_err());
    assert!(load_api_document("[meta\nname = 1", vec![table(vec![])]).is_err());
}

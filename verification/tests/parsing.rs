use flake_age::inputs::{Inputs, ParseError};
use flake_age::json::Json;

fn s(text: &str) -> String {
    String::from(text)
}

fn node_with_stamp(secs: i64) -> Json {
    Json::Obj(vec![(
        s("locked"),
        Json::Obj(vec![(s("lastModified"), Json::Int(secs))]),
    )])
}

fn doc(version: Json, root: &str, nodes: Vec<(String, Json)>) -> Json {
    Json::Obj(vec![
        (s("version"), version),
        (s("root"), Json::Str(s(root))),
        (s("nodes"), Json::Obj(nodes)),
    ])
}

#[test]
fn version_mismatch_is_reported_with_found_value() {
    let d = doc(
        Json::Int(8),
        "root",
        vec![(s("root"), Json::Obj(vec![])), (s("a"), node_with_stamp(5))],
    );
    let r = Inputs::from_json(d);
    assert!(matches!(r, Err(ParseError::VersionMismatch(Json::Int(8)))));
}

#[test]
fn missing_version_is_a_mismatch() {
    let d = Json::Obj(vec![(s("nodes"), Json::Obj(vec![(s("a"), node_with_stamp(5))]))]);
    let r = Inputs::from_json(d);
    assert!(matches!(r, Err(ParseError::VersionMismatch(Json::Null))));
}

#[test]
fn string_version_is_a_mismatch() {
    let d = doc(Json::Str(s("7")), "root", vec![(s("a"), node_with_stamp(5))]);
    let r = Inputs::from_json(d);
    assert!(matches!(r, Err(ParseError::VersionMismatch(Json::Str(_)))));
}

#[test]
fn empty_bindings_are_refused() {
    let r = Inputs::new(vec![]);
    assert!(matches!(r, Err(ParseError::NoInputs)));
}

#[test]
fn nodes_holding_only_the_root_are_refused() {
    let d = doc(Json::Int(7), "root", vec![(s("root"), node_with_stamp(5))]);
    let r = Inputs::from_json(d);
    assert!(matches!(r, Err(ParseError::NoInputs)));
}

#[test]
fn empty_nodes_object_is_refused() {
    let d = doc(Json::Int(7), "root", vec![]);
    let r = Inputs::from_json(d);
    assert!(matches!(r, Err(ParseError::NoInputs)));
}

#[test]
fn root_node_is_excluded_even_with_valid_stamp() {
    let d = doc(
        Json::Int(7),
        "root",
        vec![(s("root"), node_with_stamp(99)), (s("nixpkgs"), node_with_stamp(42))],
    );
    let inputs = Inputs::from_json(d).unwrap();
    assert_eq!(inputs.len(), 1);
    assert_eq!(inputs.get(&s("root")), None);
    assert_eq!(inputs.get(&s("nixpkgs")), Some(42));
    assert_eq!(inputs.latest(), 42);
}

#[test]
fn single_input_document_parses() {
    let d = doc(
        Json::Int(7),
        "root",
        vec![(s("root"), Json::Obj(vec![])), (s("nixpkgs"), node_with_stamp(1700000000))],
    );
    let inputs = Inputs::from_json(d).unwrap();
    assert_eq!(inputs.len(), 1);
    assert_eq!(inputs.get(&s("nixpkgs")), Some(1700000000));
    assert_eq!(inputs.latest(), 1700000000);
}

#[test]
fn missing_nodes_field_is_malformed() {
    let d = Json::Obj(vec![(s("version"), Json::Int(7)), (s("root"), Json::Str(s("root")))]);
    let r = Inputs::from_json(d);
    assert!(matches!(r, Err(ParseError::Malformed)));
}

#[test]
fn root_inputs_indirection_document_parses() {
    let root_node = Json::Obj(vec![(
        s("inputs"),
        Json::Obj(vec![(s("a"), Json::Str(s("nixpkgs")))]),
    )]);
    let d = doc(
        Json::Int(7),
        "root",
        vec![(s("root"), root_node), (s("nixpkgs"), node_with_stamp(1700000000))],
    );
    let inputs = Inputs::from_json(d).unwrap();
    assert_eq!(inputs.len(), 1);
    assert_eq!(inputs.get(&s("nixpkgs")), Some(1700000000));
}

#[test]
fn node_without_locked_is_malformed() {
    let d = doc(Json::Int(7), "root", vec![(s("a"), Json::Obj(vec![]))]);
    assert!(matches!(Inputs::from_json(d), Err(ParseError::Malformed)));
}

#[test]
fn string_stamp_is_malformed() {
    let node = Json::Obj(vec![(
        s("locked"),
        Json::Obj(vec![(s("lastModified"), Json::Str(s("recent")))]),
    )]);
    let d = doc(Json::Int(7), "root", vec![(s("a"), node)]);
    assert!(matches!(Inputs::from_json(d), Err(ParseError::Malformed)));
}

#[test]
fn one_bad_node_spoils_the_document() {
    let d = doc(
        Json::Int(7),
        "root",
        vec![(s("good"), node_with_stamp(10)), (s("bad"), Json::Null)],
    );
    assert!(matches!(Inputs::from_json(d), Err(ParseError::Malformed)));
}

#[test]
fn latest_picks_the_maximum() {
    let d = doc(
        Json::Int(7),
        "root",
        vec![
            (s("a"), node_with_stamp(-5)),
            (s("b"), node_with_stamp(1700000000)),
            (s("c"), node_with_stamp(3)),
        ],
    );
    let inputs = Inputs::from_json(d).unwrap();
    assert_eq!(inputs.len(), 3);
    assert_eq!(inputs.latest(), 1700000000);
}

#[test]
fn latest_over_direct_bindings() {
    let inputs = Inputs::new(vec![(s("x"), 7), (s("y"), -2), (s("z"), 7)]).unwrap();
    assert_eq!(inputs.latest(), 7);
}

#[test]
fn repeated_name_keeps_the_later_stamp() {
    let d = doc(
        Json::Int(7),
        "root",
        vec![(s("a"), node_with_stamp(1)), (s("a"), node_with_stamp(2))],
    );
    let inputs = Inputs::from_json(d).unwrap();
    assert_eq!(inputs.len(), 1);
    assert_eq!(inputs.get(&s("a")), Some(2));
}

#[test]
fn missing_root_field_is_malformed() {
    let d = Json::Obj(vec![
        (s("version"), Json::Int(7)),
        (s("nodes"), Json::Obj(vec![(s("a"), node_with_stamp(4))])),
    ]);
    assert!(matches!(Inputs::from_json(d), Err(ParseError::Malformed)));
}

#[test]
fn non_string_root_field_is_malformed() {
    let d = Json::Obj(vec![
        (s("version"), Json::Int(7)),
        (s("root"), Json::Int(3)),
        (s("nodes"), Json::Obj(vec![(s("a"), node_with_stamp(4))])),
    ]);
    assert!(matches!(Inputs::from_json(d), Err(ParseError::Malformed)));
}

#[test]
fn from_text_parses_a_lock_file() {
    let text = "{\"version\":7,\"root\":\"root\",\"nodes\":{\"root\":{},\"nixpkgs\":{\"locked\":{\"lastModified\":1700000000}}}}";
    let inputs = Inputs::from_text(text).unwrap();
    assert_eq!(inputs.len(), 1);
    assert_eq!(inputs.get(&s("nixpkgs")), Some(1700000000));
    assert_eq!(inputs.latest(), 1700000000);
}

#[test]
fn from_text_rejects_bad_syntax() {
    assert!(matches!(Inputs::from_text("not a json text"), Err(ParseError::JsonSyntax)));
    assert!(matches!(Inputs::from_text(""), Err(ParseError::JsonSyntax)));
}

#[test]
fn from_text_fractional_version_is_a_mismatch() {
    let r = Inputs::from_text("{\"version\":7.0,\"root\":\"root\",\"nodes\":{}}");
    assert!(matches!(r, Err(ParseError::VersionMismatch(Json::OtherNum))));
}

#[test]
fn from_text_fractional_stamp_is_malformed() {
    let text = "{\"version\":7,\"root\":\"root\",\"nodes\":{\"a\":{\"locked\":{\"lastModified\":1.5}}}}";
    assert!(matches!(Inputs::from_text(text), Err(ParseError::Malformed)));
}

#[test]
fn json_get_indexes_leniently() {
    let v = Json::Obj(vec![(s("k"), Json::Int(3))]);
    assert!(matches!(v.get(&s("k")), Json::Int(3)));
    assert!(matches!(v.get(&s("missing")), Json::Null));
    assert!(matches!(Json::Int(1).get(&s("k")), Json::Null));
}

#[test]
fn json_take_surrenders_the_value() {
    let v = Json::Obj(vec![(s("k"), Json::Str(s("v")))]);
    let taken = v.take(&s("k"));
    assert!(matches!(taken, Json::Str(t) if t == "v"));
}

use fsearch_core::json::highlights_to_json;
use fsearch_core::query::matcher::MatchMeta;

#[test]
fn highlights_serialize_as_json_array() {
    let metas = vec![
        MatchMeta { field: Some("name".to_string()), ranges: vec![(0, 3), (10, 255)] },
        MatchMeta { field: None, ranges: vec![] },
        MatchMeta { field: Some("extension".to_string()), ranges: vec![(7, 7)] },
    ];
    assert_eq!(
        highlights_to_json(&metas),
        "[{\"field\":\"name\",\"ranges\":[[0,3],[10,255]]},{\"field\":null,\"ranges\":[]},{\"field\":\"extension\",\"ranges\":[[7,7]]}]"
    );
    assert_eq!(highlights_to_json(&Vec::new()), "[]");
}

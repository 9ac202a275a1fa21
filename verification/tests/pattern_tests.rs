use httpcore::{Pattern, PlaceHolderType};

fn caps(words: &[&str]) -> Option<Vec<Vec<u8>>> {
    Some(words.iter().map(|w| w.as_bytes().to_vec()).collect())
}

#[test]
fn test_pattern_dir() {
    let pt = Pattern::from_str(b"/hello/{}/{d}/{dir}").unwrap();
    assert_eq!(pt.url, b"/hello///".to_vec());
    assert_eq!(pt.holders[0].tp, PlaceHolderType::Dir);
    assert_eq!(pt.holders[1].tp, PlaceHolderType::Dir);
    assert_eq!(pt.holders[2].tp, PlaceHolderType::Dir);
    assert_eq!(pt.match_url(b"/hello/world/from/rust"), caps(&["world", "from", "rust"]));
}

#[test]
fn test_pattern_dir_value() {
    let pt = Pattern::from_str(b"/hello/{}?val={}").unwrap();
    assert_eq!(pt.url, b"/hello/?val=".to_vec());
    assert_eq!(pt.holders[0].tp, PlaceHolderType::Dir);
    assert_eq!(pt.holders[1].tp, PlaceHolderType::Value);
    assert_eq!(pt.match_url(b"/hello/world?val=123"), caps(&["world", "123"]));
    assert_eq!(pt.match_url(b"/hello/world/evil?val=123"), None);
}

#[test]
fn test_pattern_dir_path() {
    let pt = Pattern::from_str(b"/hello/{d}/{path}").unwrap();
    assert_eq!(pt.url, b"/hello//".to_vec());
    assert_eq!(pt.holders[0].tp, PlaceHolderType::Dir);
    assert_eq!(pt.holders[1].tp, PlaceHolderType::Path);
    assert_eq!(pt.match_url(b"/hello/world/from"), caps(&["world", "from"]));
    assert_eq!(pt.match_url(b"/hello/world/from/evil"), caps(&["world", "from/evil"]));
    assert_eq!(pt.match_url(b"/hello/world/from/evil/rust"), caps(&["world", "from/evil/rust"]));
}

#[test]
fn test_pattern_dir_path_values() {
    let pt = Pattern::from_str(b"/hello/{d}/{path}?val={}&age={}").unwrap();
    assert_eq!(pt.url, b"/hello//?val=&age=".to_vec());
    assert_eq!(pt.holders[0].tp, PlaceHolderType::Dir);
    assert_eq!(pt.holders[1].tp, PlaceHolderType::Path);
    assert_eq!(pt.holders[2].tp, PlaceHolderType::Value);
    assert_eq!(pt.holders[3].tp, PlaceHolderType::Value);
    assert_eq!(
        pt.match_url(b"/hello/world/from?val=123&age=24"),
        caps(&["world", "from", "123", "24"])
    );
    assert_eq!(
        pt.match_url(b"/hello/world/from/evil?val=123&age=24"),
        caps(&["world", "from/evil", "123", "24"])
    );
    assert_eq!(
        pt.match_url(b"/hello/world/from/evil/rust?val=123&age=24"),
        caps(&["world", "from/evil/rust", "123", "24"])
    );
}

#[test]
fn test_pattern_fail() {
    assert!(Pattern::from_str(b"/hello/{d}/{path}?val={}{}&age={}").is_none());
    assert!(Pattern::from_str(b"/hello/{d}{}/{path}?val={}&age={}").is_none());
    let pt = Pattern::from_str(b"/hello").unwrap();
    assert_eq!(pt.match_url(b"/hello"), Some(vec![]));
    assert_eq!(pt.match_url(b"/hell0"), None);
}

#[test]
fn pattern_unterminated_brace_rejected() {
    assert!(Pattern::from_str(b"/open/{d").is_none());
    assert!(Pattern::from_str(b"/open/{").is_none());
}

#[test]
fn pattern_label_kinds() {
    let pt = Pattern::from_str(b"/{p}/{path}/{v}/{value}/{a}/{all}").unwrap();
    assert_eq!(pt.holders[0].tp, PlaceHolderType::Path);
    assert_eq!(pt.holders[1].tp, PlaceHolderType::Path);
    assert_eq!(pt.holders[2].tp, PlaceHolderType::Value);
    assert_eq!(pt.holders[3].tp, PlaceHolderType::Value);
    assert_eq!(pt.holders[4].tp, PlaceHolderType::All);
    assert_eq!(pt.holders[5].tp, PlaceHolderType::All);
}

#[test]
fn pattern_literal_matches_only_itself() {
    let pt = Pattern::from_str(b"/exact/path").unwrap();
    assert_eq!(pt.match_url(b"/exact/path"), Some(vec![]));
    assert_eq!(pt.match_url(b"/exact/path/"), None);
    assert_eq!(pt.match_url(b"/exact/pat"), None);
    assert_eq!(pt.match_url(b""), None);
}

#[test]
fn pattern_positions_strictly_increase() {
    let pt = Pattern::from_str(b"/a/{}/b/{}/c/{}").unwrap();
    for k in 1..pt.holders.len() {
        assert!(pt.holders[k - 1].pos < pt.holders[k].pos);
    }
}

use starpls_custom::path::path_to_slash_string;
use starpls_custom::path::PathModel;

fn model_of(s: &str) -> PathModel {
    let mut components: Vec<Vec<u8>> = Vec::new();
    if s.starts_with('/') {
        components.push(b"/".to_vec());
    }
    for part in s.split('/').filter(|p| !p.is_empty()) {
        components.push(part.as_bytes().to_vec());
    }
    PathModel::new(components)
}

fn components_of(p: &PathModel) -> Vec<Vec<u8>> {
    p.components.clone()
}

#[test]
fn parent_drops_the_last_component() {
    let p = model_of("/repo/pkg/main.star");
    let parent = p.parent().unwrap();
    assert_eq!(components_of(&parent), components_of(&model_of("/repo/pkg")));
    assert!(model_of("/").parent().is_none());
    assert!(model_of("").parent().is_none());
    let relative = model_of("main.star").parent().unwrap();
    assert!(relative.components.is_empty());
}

#[test]
fn join_appends_or_replaces() {
    let base = model_of("/repo");
    let joined = base.join(&model_of("schemas/a.json"));
    assert_eq!(components_of(&joined), components_of(&model_of("/repo/schemas/a.json")));
    let absolute = base.join(&model_of("/etc/a.json"));
    assert_eq!(components_of(&absolute), components_of(&model_of("/etc/a.json")));
    let dotted = PathModel::new(vec![b".".to_vec(), b"a.json".to_vec()]);
    assert_eq!(components_of(&base.join(&dotted)), components_of(&model_of("/repo/a.json")));
    let empty = model_of("");
    assert_eq!(components_of(&empty.join(&dotted)), vec![b".".to_vec(), b"a.json".to_vec()]);
}

#[test]
fn strip_prefix_is_component_wise() {
    let p = model_of("/repo/pkg/main.star");
    let rel = p.strip_prefix(&model_of("/repo")).unwrap();
    assert_eq!(components_of(&rel), components_of(&model_of("pkg/main.star")));
    assert!(p.strip_prefix(&model_of("/rep")).is_none());
    assert!(p.strip_prefix(&model_of("/other")).is_none());
    let same = p.strip_prefix(&p.copy()).unwrap();
    assert!(same.components.is_empty());
}

#[test]
fn slash_string_joins_components() {
    assert_eq!(path_to_slash_string(&model_of("pkg/nested/main.star")), Some("pkg/nested/main.star".to_string()));
    assert_eq!(path_to_slash_string(&model_of("")), Some(String::new()));
    assert_eq!(path_to_slash_string(&model_of("/a")), Some("//a".to_string()));
    let bad = PathModel::new(vec![b"pkg".to_vec(), vec![0xff, 0xfe]]);
    assert_eq!(path_to_slash_string(&bad), None);
}

#[test]
fn slash_string_splits_back_into_components() {
    let parts = vec![b"pkg".to_vec(), b"".to_vec(), b"main.star".to_vec()];
    let text = path_to_slash_string(&PathModel::new(parts.clone())).unwrap();
    let back: Vec<Vec<u8>> = text.split('/').map(|s| s.as_bytes().to_vec()).collect();
    assert_eq!(back, parts);
}

use starpls_custom::manifest::choose_schema;
use starpls_custom::manifest::continue_manifest_search;
use starpls_custom::manifest::find_nearest_manifest;
use starpls_custom::manifest::finish_schema_match;
use starpls_custom::manifest::manifest_path_in;
use starpls_custom::manifest::validate_manifest;
use starpls_custom::manifest::DiscoveryError;
use starpls_custom::manifest::Manifest;
use starpls_custom::manifest::ManifestError;
use starpls_custom::manifest::ManifestSearch;
use starpls_custom::manifest::Schema;
use starpls_custom::manifest::MANIFEST_FILE_NAME;
use starpls_custom::path::PathModel;

fn path_model(s: &str) -> PathModel {
    let mut components: Vec<Vec<u8>> = Vec::new();
    if s.starts_with('/') {
        components.push(b"/".to_vec());
    }
    for part in s.split('/').filter(|p| !p.is_empty()) {
        components.push(part.as_bytes().to_vec());
    }
    PathModel::new(components)
}

fn schema(name: &str, globs: &[&str], builtins: &str) -> Schema {
    Schema {
        name: name.to_string(),
        globs: globs.iter().map(|g| g.to_string()).collect(),
        builtins: path_model(builtins),
    }
}

fn two_schema_manifest() -> Manifest {
    Manifest {
        version: 1,
        schemas: vec![
            schema("first", &["pkg/*.star"], "first.starpls.json"),
            schema("second", &["**/*.star"], "second.starpls.json"),
        ],
    }
}

/// Runs the manifest search against a set of directories that hold a manifest.
fn run_search(source: &str, is_dir: bool, with_manifest: &[&str]) -> Option<Vec<Vec<u8>>> {
    let holders: Vec<Vec<Vec<u8>>> = with_manifest.iter().map(|d| path_model(d).components).collect();
    let mut step = find_nearest_manifest(&path_model(source), is_dir);
    let mut probes = 0;
    loop {
        match step {
            ManifestSearch::Probe(dir) => {
                probes += 1;
                assert!(probes < 100);
                let exists = holders.contains(&dir.components);
                step = continue_manifest_search(&dir, exists);
            }
            ManifestSearch::Found(m) => return Some(m.components),
            ManifestSearch::NotFound => return None,
        }
    }
}

#[test]
fn search_walks_upward_to_the_nearest_manifest() {
    let found = run_search("/root/a/b/c/main.star", false, &["/root", "/"]).unwrap();
    assert_eq!(found, path_model("/root/.starpls.json").components);
    let nearer = run_search("/root/a/b/c/main.star", false, &["/root", "/root/a/b"]).unwrap();
    assert_eq!(nearer, path_model("/root/a/b/.starpls.json").components);
    let own = run_search("/root/a", true, &["/root/a", "/root"]).unwrap();
    assert_eq!(own, path_model("/root/a/.starpls.json").components);
    assert_eq!(run_search("/root/a/main.star", false, &[]), None);
    assert_eq!(run_search("", false, &["/"]), None);
}

#[test]
fn manifest_path_names_the_manifest_file() {
    let m = manifest_path_in(&path_model("/repo"));
    assert_eq!(m.components, path_model("/repo/.starpls.json").components);
    assert_eq!(MANIFEST_FILE_NAME, ".starpls.json");
}

#[test]
fn only_version_one_is_accepted() {
    assert!(validate_manifest(Manifest { version: 1, schemas: vec![] }).is_ok());
    match validate_manifest(Manifest { version: 2, schemas: vec![] }) {
        Err(ManifestError::UnsupportedVersion(v)) => assert_eq!(v, 2),
        Ok(_) => panic!("version 2 accepted"),
    }
}

#[test]
fn first_matching_schema_wins_in_memory() {
    let manifest = two_schema_manifest();
    let chosen = manifest.matching_schema(&path_model("pkg/main.star")).unwrap();
    assert_eq!(chosen.name, "first");
    let nested = manifest.matching_schema(&path_model("pkg/nested/main.star")).unwrap();
    assert_eq!(nested.name, "second");
    assert!(manifest.matching_schema(&path_model("pkg/main.sky")).is_none());
}

#[test]
fn choice_resolves_builtins_against_the_manifest_directory() {
    let manifest = two_schema_manifest();
    let choice = choose_schema(
        &path_model("/root/pkg/main.star"),
        path_model("/root/.starpls.json"),
        &manifest,
    )
    .unwrap()
    .unwrap();
    assert_eq!(choice.schema_name, "first");
    assert_eq!(choice.builtins_path.components, path_model("/root/first.starpls.json").components);
    assert_eq!(choice.manifest_path.components, path_model("/root/.starpls.json").components);

    let matched = finish_schema_match(choice, "/canonical/root/.starpls.json");
    assert_eq!(matched.schema_id, "/canonical/root/.starpls.json#first");
    assert!(matched.schema_id.ends_with(".starpls.json#first"));
    assert_eq!(matched.schema_name, "first");
}

#[test]
fn ignores_files_outside_globs_in_memory() {
    let manifest = Manifest { version: 1, schemas: vec![schema("example", &["pkg/*.star"], "example.starpls.json")] };
    let none = choose_schema(&path_model("/root/other/main.star"), path_model("/root/.starpls.json"), &manifest);
    assert!(matches!(none, Ok(None)));
    let outside = choose_schema(&path_model("/elsewhere/pkg/main.star"), path_model("/root/.starpls.json"), &manifest);
    assert!(matches!(outside, Ok(None)));
    let no_parent = choose_schema(&path_model("/root/pkg/main.star"), path_model("/"), &manifest);
    assert!(matches!(no_parent, Err(DiscoveryError::ManifestWithoutParent)));
}

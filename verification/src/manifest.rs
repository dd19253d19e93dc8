//! The `.starpls.json` manifest: finding the nearest one, checking its
//! version, and choosing the schema whose globs match a file.

use vstd::prelude::*;
use vstd::string::*;
use vstd::utf8::encode_utf8;
use crate::glob::{glob_matches, glob_spec};
use crate::path::{PathModel, copy_bytes, join_spec, parent_spec, path_to_slash_string, slash_string_spec, strip_prefix_spec};

verus! {

/// The file name of a manifest.
pub const MANIFEST_FILE_NAME: &'static str = ".starpls.json";

/// The only manifest version there is.
pub const SUPPORTED_MANIFEST_VERSION: u32 = 1;

/// One schema of a manifest.
pub struct Schema {
    /// The schema's name; with the canonical manifest path it forms the
    /// schema's identity.
    pub name: String,
    /// Globs, relative to the manifest's directory, of the files it covers.
    pub globs: Vec<String>,
    /// The builtins file, as the components of the path the manifest gives,
    /// relative to the manifest's directory.
    pub builtins: PathModel,
}

/// A parsed manifest.
pub struct Manifest {
    pub version: u32,
    pub schemas: Vec<Schema>,
}

/// Why a manifest is refused.
#[derive(Debug)]
pub enum ManifestError {
    /// The manifest declares a version other than the supported one.
    UnsupportedVersion(u32),
}

/// Accepts a manifest of the supported version and refuses any other.
pub fn validate_manifest(manifest: Manifest) -> (r: Result<Manifest, ManifestError>)
    ensures
        manifest.version == SUPPORTED_MANIFEST_VERSION ==> r == Ok::<Manifest, ManifestError>(manifest),
        manifest.version != SUPPORTED_MANIFEST_VERSION ==> r == Err::<Manifest, ManifestError>(
            ManifestError::UnsupportedVersion(manifest.version),
        ),
{
    if manifest.version == SUPPORTED_MANIFEST_VERSION {
        Ok(manifest)
    } else {
        Err(ManifestError::UnsupportedVersion(manifest.version))
    }
}

/// Some glob of the schema matches `text`.
pub open spec fn schema_covers(schema: Schema, text: Seq<u8>) -> bool {
    exists|j: int| 0 <= j < schema.globs@.len() && glob_spec(encode_utf8(#[trigger] schema.globs@[j]@), text)
}

/// The index of the first schema, from index `k` on, that covers `text`.
pub open spec fn first_covering(schemas: Seq<Schema>, text: Seq<u8>, k: int) -> Option<int>
    decreases schemas.len() - k,
{
    if k < 0 || k >= schemas.len() {
        None
    } else if schema_covers(schemas[k], text) {
        Some(k)
    } else {
        first_covering(schemas, text, k + 1)
    }
}

/// The schema that covers a file at relative path `rel`, by index: the first
/// one with a matching glob; none when none matches or the path is not UTF-8.
pub open spec fn matching_schema_spec(schemas: Seq<Schema>, rel: Seq<Seq<u8>>) -> Option<int> {
    match slash_string_spec(rel) {
        None => None,
        Some(text) => first_covering(schemas, text, 0),
    }
}

/// Whether some glob of `globs` matches `text`.
fn any_glob_matches(globs: &Vec<String>, text: &str) -> (r: bool)
    ensures
        r == exists|j: int| 0 <= j < globs@.len() && glob_spec(encode_utf8(#[trigger] globs@[j]@), text.spec_bytes()),
{
    let mut j: usize = 0;
    while j < globs.len()
        invariant
            j <= globs@.len(),
            forall|k: int| 0 <= k < j ==> !glob_spec(encode_utf8(#[trigger] globs@[k]@), text.spec_bytes()),
        decreases globs.len() - j,
    {
        if glob_matches(globs[j].as_str(), text) {
            return true;
        }
        j += 1;
    }
    false
}

impl Manifest {
    /// The first schema, in manifest order, with a glob that
    /// matches the path (relative to the manifest's directory).
    pub fn matching_schema(&self, relative_source_path: &PathModel) -> (r: Option<&Schema>)
        ensures
            match matching_schema_spec(self.schemas@, relative_source_path@) {
                None => r is None,
                Some(i) => r == Some(&self.schemas@[i]),
            },
    {
        let text = match path_to_slash_string(relative_source_path) {
            Some(text) => text,
            None => return None,
        };
        let ghost bytes = encode_utf8(text@);
        let mut i: usize = 0;
        while i < self.schemas.len()
            invariant
                i <= self.schemas@.len(),
                slash_string_spec(relative_source_path@) == Some(bytes),
                bytes == encode_utf8(text@),
                first_covering(self.schemas@, bytes, i as int) == first_covering(self.schemas@, bytes, 0),
            decreases self.schemas.len() - i,
        {
            let schema = &self.schemas[i];
            if any_glob_matches(&schema.globs, text.as_str()) {
                return Some(schema);
            }
            i += 1;
        }
        None
    }
}

/// One step of the search for the nearest manifest, as a value.
pub ghost enum SearchStep {
    /// Look for a manifest in this directory.
    Probe(Seq<Seq<u8>>),
    /// The manifest at this path is the nearest.
    Found(Seq<Seq<u8>>),
    /// No directory up to the top holds a manifest.
    NotFound,
}

/// The next thing the search for the nearest manifest asks for.
pub enum ManifestSearch {
    /// Check whether this directory holds a manifest.
    Probe(PathModel),
    /// The manifest at this path is the nearest one.
    Found(PathModel),
    /// None of the directories holds a manifest.
    NotFound,
}

impl View for ManifestSearch {
    type V = SearchStep;

    open spec fn view(&self) -> SearchStep {
        match self {
            ManifestSearch::Probe(d) => SearchStep::Probe(d@),
            ManifestSearch::Found(m) => SearchStep::Found(m@),
            ManifestSearch::NotFound => SearchStep::NotFound,
        }
    }
}

/// The manifest file name as a path component.
pub open spec fn manifest_name() -> Seq<u8> {
    MANIFEST_FILE_NAME.spec_bytes()
}

/// The path of the manifest that directory `dir` would hold.
pub open spec fn manifest_in(dir: Seq<Seq<u8>>) -> Seq<Seq<u8>> {
    join_spec(dir, seq![manifest_name()])
}

/// Where the search starts: the source path itself when it is a directory,
/// else its parent.
pub open spec fn search_start(source: Seq<Seq<u8>>, source_is_dir: bool) -> SearchStep {
    let start = if source_is_dir { Some(source) } else { parent_spec(source) };
    match start {
        Some(dir) => SearchStep::Probe(dir),
        None => SearchStep::NotFound,
    }
}

/// After looking in `dir`: stop at its manifest if there is one, else go on
/// with the parent directory, and give up at the top.
pub open spec fn search_next(dir: Seq<Seq<u8>>, manifest_exists: bool) -> SearchStep {
    if manifest_exists {
        SearchStep::Found(manifest_in(dir))
    } else {
        match parent_spec(dir) {
            Some(up) => SearchStep::Probe(up),
            None => SearchStep::NotFound,
        }
    }
}

/// The path of the manifest that `dir` would hold.
pub fn manifest_path_in(dir: &PathModel) -> (r: PathModel)
    ensures
        r@ == manifest_in(dir@),
{
    let name = copy_bytes(MANIFEST_FILE_NAME.as_bytes());
    let mut components: Vec<Vec<u8>> = Vec::new();
    components.push(name);
    let rel = PathModel::new(components);
    assert(rel@ =~= seq![manifest_name()]);
    dir.join(&rel)
}

/// Starts the search for the nearest manifest of the source file at
/// `source`: its first step looks in the file's own directory (the path
/// itself when it names a directory); with no such directory there is
/// nothing to search.
pub fn find_nearest_manifest(source: &PathModel, source_is_dir: bool) -> (r: ManifestSearch)
    ensures
        r@ == search_start(source@, source_is_dir),
{
    if source_is_dir {
        ManifestSearch::Probe(source.copy())
    } else {
        match source.parent() {
            Some(dir) => ManifestSearch::Probe(dir),
            None => ManifestSearch::NotFound,
        }
    }
}

/// The step after looking for a manifest in `dir`.
pub fn continue_manifest_search(dir: &PathModel, manifest_exists: bool) -> (r: ManifestSearch)
    ensures
        r@ == search_next(dir@, manifest_exists),
{
    if manifest_exists {
        ManifestSearch::Found(manifest_path_in(dir))
    } else {
        match dir.parent() {
            Some(up) => ManifestSearch::Probe(up),
            None => ManifestSearch::NotFound,
        }
    }
}

proof fn lemma_first_covering_facts(schemas: Seq<Schema>, text: Seq<u8>, k: int)
    requires
        0 <= k,
    ensures
        first_covering(schemas, text, k) matches Some(i) ==> k <= i < schemas.len() && schema_covers(
            schemas[i],
            text,
        ) && forall|j: int| k <= j < i ==> !schema_covers(#[trigger] schemas[j], text),
        first_covering(schemas, text, k) is None ==> forall|j: int|
            k <= j < schemas.len() ==> !schema_covers(#[trigger] schemas[j], text),
    decreases schemas.len() - k,
{
    if k < schemas.len() {
        lemma_first_covering_facts(schemas, text, k + 1);
    }
}

/// When several schemas cover a file the first one in manifest order wins:
/// the chosen schema covers it and no earlier schema does; when none is
/// chosen, no schema covers it.
pub proof fn lemma_first_matching_schema_wins(schemas: Seq<Schema>, text: Seq<u8>)
    ensures
        first_covering(schemas, text, 0) matches Some(i) ==> 0 <= i < schemas.len() && schema_covers(
            schemas[i],
            text,
        ) && forall|j: int| 0 <= j < i ==> !schema_covers(#[trigger] schemas[j], text),
        first_covering(schemas, text, 0) is None ==> forall|j: int|
            0 <= j < schemas.len() ==> !schema_covers(#[trigger] schemas[j], text),
{
    lemma_first_covering_facts(schemas, text, 0);
}

/// The directories the search looks in, nearest first: `dir` and then each
/// parent up to the top.
pub open spec fn ancestors(dir: Seq<Seq<u8>>) -> Seq<Seq<Seq<u8>>>
    decreases dir.len(),
{
    if dir.len() == 0 || crate::path::is_root_component(dir.last()) {
        seq![dir]
    } else {
        seq![dir] + ancestors(dir.drop_last())
    }
}

/// Where the search ends when, from step `step`, each probe of a directory
/// is answered by whether `holds` is true of its manifest path.
pub open spec fn search_outcome(step: SearchStep, holds: spec_fn(Seq<Seq<u8>>) -> bool) -> Option<Seq<Seq<u8>>>
    decreases
            (match step {
                SearchStep::Probe(d) => d.len() + 1,
                _ => 0,
            }),
{
    match step {
        SearchStep::Probe(d) => {
            let next = search_next(d, holds(manifest_in(d)));
            match next {
                SearchStep::Found(m) => Some(m),
                SearchStep::NotFound => None,
                // the parent is always shorter; the test only shows termination
                SearchStep::Probe(up) => if up.len() < d.len() {
                    search_outcome(SearchStep::Probe(up), holds)
                } else {
                    None
                },
            }
        },
        SearchStep::Found(m) => Some(m),
        SearchStep::NotFound => None,
    }
}

/// The manifest of the first directory of `dirs` that holds one.
pub open spec fn first_manifest(dirs: Seq<Seq<Seq<u8>>>, holds: spec_fn(Seq<Seq<u8>>) -> bool) -> Option<Seq<Seq<u8>>>
    decreases dirs.len(),
{
    if dirs.len() == 0 {
        None
    } else if holds(manifest_in(dirs[0])) {
        Some(manifest_in(dirs[0]))
    } else {
        first_manifest(dirs.drop_first(), holds)
    }
}

/// The search settles on the manifest of the nearest directory, walking
/// upward from where it starts, that holds one; it finds none when no
/// directory up to the top holds one.
pub proof fn lemma_nearest_manifest_wins(dir: Seq<Seq<u8>>, holds: spec_fn(Seq<Seq<u8>>) -> bool)
    ensures
        search_outcome(SearchStep::Probe(dir), holds) == first_manifest(ancestors(dir), holds),
    decreases dir.len(),
{
    if dir.len() == 0 || crate::path::is_root_component(dir.last()) {
        assert(first_manifest(ancestors(dir).drop_first(), holds) == None::<Seq<Seq<u8>>>) by {
            assert(ancestors(dir).drop_first() =~= Seq::<Seq<Seq<u8>>>::empty());
        }
    } else {
        lemma_nearest_manifest_wins(dir.drop_last(), holds);
        assert(ancestors(dir).drop_first() =~= ancestors(dir.drop_last()));
    }
}

/// Why a manifest that was found cannot be used.
#[derive(Debug)]
pub enum DiscoveryError {
    /// The manifest's path has no parent directory.
    ManifestWithoutParent,
}

/// The schema chosen for a source file, before the manifest path is made
/// canonical.
pub struct SchemaChoice {
    pub schema_name: String,
    pub manifest_path: PathModel,
    pub builtins_path: PathModel,
}

/// What choosing the schema for `source` under the manifest at
/// `manifest_path` gives, by schema index: an error when the manifest has
/// no directory; none when the source lies outside that directory or no
/// schema covers it.
pub open spec fn schema_choice_spec(source: Seq<Seq<u8>>, manifest_path: Seq<Seq<u8>>, schemas: Seq<Schema>) -> Result<Option<int>, DiscoveryError> {
    match parent_spec(manifest_path) {
        None => Err(DiscoveryError::ManifestWithoutParent),
        Some(dir) => match strip_prefix_spec(source, dir) {
            None => Ok(None),
            Some(rel) => Ok(matching_schema_spec(schemas, rel)),
        },
    }
}

/// Chooses the schema of `manifest` that covers the source file at
/// `source`: globs apply to the path relative to the manifest's directory,
/// and the builtins path is resolved against that directory.
pub fn choose_schema(source: &PathModel, manifest_path: PathModel, manifest: &Manifest) -> (r: Result<Option<SchemaChoice>, DiscoveryError>)
    ensures
        match schema_choice_spec(source@, manifest_path@, manifest.schemas@) {
            Err(e) => r matches Err(e2) && e2 == e,
            Ok(None) => r matches Ok(None),
            Ok(Some(i)) => r matches Ok(Some(c)) && {
                let dir = parent_spec(manifest_path@)->0;
                &&& c.schema_name@ == manifest.schemas@[i].name@
                &&& c.manifest_path@ == manifest_path@
                &&& c.builtins_path@ == join_spec(dir, manifest.schemas@[i].builtins@)
            },
        },
{
    let manifest_dir = match manifest_path.parent() {
        Some(dir) => dir,
        None => return Err(DiscoveryError::ManifestWithoutParent),
    };
    let relative_source_path = match source.strip_prefix(&manifest_dir) {
        Some(rel) => rel,
        None => return Ok(None),
    };
    match manifest.matching_schema(&relative_source_path) {
        None => Ok(None),
        Some(schema) => {
            let builtins_path = manifest_dir.join(&schema.builtins);
            Ok(Some(SchemaChoice { schema_name: schema.name.clone(), manifest_path, builtins_path }))
        },
    }
}

/// A custom schema matched to a source file.
pub struct CustomSchemaMatch {
    /// The canonical manifest path, `#`, and the schema name.
    pub schema_id: String,
    pub schema_name: String,
    pub manifest_path: PathModel,
    pub builtins_path: PathModel,
}

/// The identity of a schema: the canonical path of its manifest, `#`, and
/// its name, so that schemas of different manifests never collide.
pub open spec fn schema_id_spec(canonical_manifest_path: Seq<char>, schema_name: Seq<char>) -> Seq<char> {
    canonical_manifest_path + seq!['#'] + schema_name
}

/// Completes a chosen schema with its identity, given the canonical form
/// of the manifest path as text.
pub fn finish_schema_match(choice: SchemaChoice, canonical_manifest_path: &str) -> (r: CustomSchemaMatch)
    ensures
        r.schema_id@ == schema_id_spec(canonical_manifest_path@, choice.schema_name@),
        r.schema_name@ == choice.schema_name@,
        r.manifest_path@ == choice.manifest_path@,
        r.builtins_path@ == choice.builtins_path@,
{
    let mut schema_id = String::from_str(canonical_manifest_path);
    let hash = "#";
    proof {
        reveal_strlit("#");
    }
    schema_id.append(hash);
    schema_id.append(choice.schema_name.as_str());
    CustomSchemaMatch {
        schema_id,
        schema_name: choice.schema_name,
        manifest_path: choice.manifest_path,
        builtins_path: choice.builtins_path,
    }
}

/// `#` does not occur in `s`.
pub open spec fn hash_free(s: Seq<char>) -> bool {
    forall|i: int| 0 <= i < s.len() ==> s[i] != '#'
}

/// Schemas never collide: when schema names hold no `#`, two schema ids are
/// equal only for the same canonical manifest path and the same name.
pub proof fn lemma_schema_ids_distinct(c1: Seq<char>, n1: Seq<char>, c2: Seq<char>, n2: Seq<char>)
    requires
        hash_free(n1),
        hash_free(n2),
        schema_id_spec(c1, n1) == schema_id_spec(c2, n2),
    ensures
        c1 == c2,
        n1 == n2,
{
    let id = schema_id_spec(c1, n1);
    assert(id == schema_id_spec(c2, n2));
    // the `#` after the manifest path is the last one in the id
    if n1.len() < n2.len() {
        let k = id.len() - n1.len() - 1;
        assert(id[k] == '#');
        assert(id[k] == n2[k - c2.len() - 1]);
    } else if n2.len() < n1.len() {
        let k = id.len() - n2.len() - 1;
        assert(id[k] == '#');
        assert(id[k] == n1[k - c1.len() - 1]);
    }
    assert(c1.len() == c2.len());
    assert forall|i: int| 0 <= i < c1.len() implies c1[i] == c2[i] by {
        assert(id[i] == c1[i]);
        assert(schema_id_spec(c2, n2)[i] == c2[i]);
    }
    assert forall|i: int| 0 <= i < n1.len() implies n1[i] == n2[i] by {
        assert(id[c1.len() + 1 + i] == n1[i]);
        assert(schema_id_spec(c2, n2)[c2.len() + 1 + i] == n2[i]);
    }
    assert(c1 =~= c2);
    assert(n1 =~= n2);
}

/// Some glob in the list matches `text`.
pub open spec fn some_glob_matches(globs: Seq<String>, text: Seq<u8>) -> bool {
    exists|j: int| 0 <= j < globs.len() && glob_spec(encode_utf8(#[trigger] globs[j]@), text)
}

/// The schema chosen for a path is the first, in manifest order, with at
/// least one matching glob (one is enough; the others need not match); no
/// schema is chosen when no glob of any schema matches.
pub proof fn lemma_chosen_schema_has_a_matching_glob(schemas: Seq<Schema>, text: Seq<u8>)
    ensures
        first_covering(schemas, text, 0) matches Some(i) ==> 0 <= i < schemas.len() && some_glob_matches(
            schemas[i].globs@,
            text,
        ) && forall|k: int| 0 <= k < i ==> !some_glob_matches(#[trigger] schemas[k].globs@, text),
        first_covering(schemas, text, 0) is None ==> forall|k: int|
            0 <= k < schemas.len() ==> !some_glob_matches(#[trigger] schemas[k].globs@, text),
        forall|i: int, j: int|
            0 <= i < schemas.len() && 0 <= j < schemas[i].globs@.len() && glob_spec(
                encode_utf8(#[trigger] schemas[i].globs@[j]@),
                text,
            ) ==> first_covering(schemas, text, 0) is Some,
{
    lemma_first_covering_facts(schemas, text, 0);
    assert forall|k: int| 0 <= k < schemas.len() implies schema_covers(schemas[k], text)
        == some_glob_matches(#[trigger] schemas[k].globs@, text) by {}
    assert forall|i: int, j: int|
        0 <= i < schemas.len() && 0 <= j < schemas[i].globs@.len() && glob_spec(
            encode_utf8(#[trigger] schemas[i].globs@[j]@),
            text,
        ) implies first_covering(schemas, text, 0) is Some by {
        assert(some_glob_matches(schemas[i].globs@, text));
        assert(schema_covers(schemas[i], text));
    }
}

proof fn lemma_manifest_name_plain()
    ensures
        manifest_name().len() > 1,
{
    reveal_strlit(".starpls.json");
    assert(MANIFEST_FILE_NAME@ == ".starpls.json"@);
    assert(MANIFEST_FILE_NAME@.len() == 13);
    vstd::string::is_ascii_spec_bytes(MANIFEST_FILE_NAME);
    assert(vstd::string::is_ascii(MANIFEST_FILE_NAME)) by {
        assert(forall|i: int| 0 <= i < 13 ==> (MANIFEST_FILE_NAME@[i] as u32) < 128);
    }
}

/// The search for the manifest of a file starts in the file's own
/// directory, its path without the last component; a directory is searched
/// from itself. Looking in a directory finds the manifest file right inside
/// it, and when there is none goes on with the directory one level up.
pub proof fn lemma_search_starts_at_the_files_directory(s: Seq<Seq<u8>>, dir: Seq<Seq<u8>>)
    ensures
        s.len() > 0 && !crate::path::is_root_component(s.last()) ==> search_start(s, false)
            == SearchStep::Probe(s.drop_last()),
        search_start(s, true) == SearchStep::Probe(s),
        search_next(dir, true) == SearchStep::Found(dir.push(manifest_name())),
        dir.len() > 0 && !crate::path::is_root_component(dir.last()) ==> search_next(dir, false)
            == SearchStep::Probe(dir.drop_last()),
{
    lemma_manifest_name_plain();
    let n = manifest_name();
    assert(!crate::path::is_root_component(n));
    assert(n != seq![crate::path::DOT]);
    if dir.len() == 0 {
        assert(seq![n] =~= dir.push(n));
    } else {
        assert(dir + seq![n] =~= dir.push(n));
    }
}

/// From a file, the search settles on the manifest of the nearest directory,
/// starting with the file's own, that holds one.
pub proof fn lemma_file_search_finds_nearest(s: Seq<Seq<u8>>, holds: spec_fn(Seq<Seq<u8>>) -> bool)
    requires
        s.len() > 0,
        !crate::path::is_root_component(s.last()),
    ensures
        search_outcome(search_start(s, false), holds) == first_manifest(ancestors(s.drop_last()), holds),
{
    lemma_search_starts_at_the_files_directory(s, s);
    lemma_nearest_manifest_wins(s.drop_last(), holds);
}

} // verus!

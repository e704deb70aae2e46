//! The config directory, and keeping it honest.
//!
//! ```text
//! ~/.config/stabmouse/
//! ├── config.toml
//! ├── presets/<slug>.toml
//! └── profiles/<slug>.toml
//! ```
//!
//! **The filename is the identity**: `presets/inking.toml` *is* the preset `inking`, with no
//! internal name field that could disagree.
//!
//! **A bad file never takes the daemon down.** Problems are collected and returned alongside a
//! store that is still usable.

use crate::config::edit::{document_text, toml_error, toml_reprint, Document};
use crate::config::error::{error_views, Error, ErrorView};
use crate::config::schema::{
    is_slug, is_valid_slug, Datum, Defaults, Preset, Profile, Root, StageEntry, CURRENT_SCHEMA,
};
use crate::dict::{in_key_order, key_at, keys_of, Dict};
use crate::text::{chars_of, ends_with, owned, same_text, slice_of, string_of, views};
use vstd::prelude::*;

verus! {

/// The slug of the built-in fallback preset, which always exists.
pub const RAW: &'static str = "raw";

/// Non-fatal problems found while loading.
#[derive(Debug)]
pub struct LoadReport {
    pub problems: Vec<Error>,
}

impl Default for LoadReport {
    fn default() -> (r: Self)
        ensures
            r.problems@.len() == 0,
    {
        LoadReport { problems: Vec::new() }
    }
}

impl LoadReport {
    pub fn is_clean(&self) -> (r: bool)
        ensures
            r == (self.problems@.len() == 0),
    {
        self.problems.is_empty()
    }
}

/// A kind of file that states its schema version.
pub trait Versioned {
    spec fn version(&self) -> u32;

    fn schema_version(&self) -> (v: u32)
        ensures
            v == self.version(),
    ;
}

impl Versioned for Preset {
    open spec fn version(&self) -> u32 {
        self.schema
    }

    fn schema_version(&self) -> (v: u32) {
        self.schema
    }
}

impl Versioned for Profile {
    open spec fn version(&self) -> u32 {
        self.schema
    }

    fn schema_version(&self) -> (v: u32) {
        self.schema
    }
}

/// A file of a config directory: its name, its path, what reading it gave, and the typed reading
/// of its text.
pub struct FoundFile<T> {
    pub name: String,
    pub path: String,
    pub text: Result<String, String>,
    pub parsed: Result<T, String>,
}

/// What a file's name makes of it.
#[derive(Debug)]
pub enum FileName {
    /// Not a config file.
    Other,
    /// A config file whose stem is no slug.
    BadSlug(String),
    Slug(String),
}

/// The stem of a file called `<stem>.toml`.
pub open spec fn toml_stem(name: Seq<char>) -> Option<Seq<char>> {
    if name.len() > 5 && ".toml"@.is_suffix_of(name) {
        Some(name.take(name.len() - 5))
    } else {
        None
    }
}

/// What a file's name makes of it. Only a file with a slug is worth reading.
pub fn file_name(name: &str) -> (r: FileName)
    ensures
        match r {
            FileName::Other => toml_stem(name@) is None,
            FileName::BadSlug(stem) => toml_stem(name@) == Some(stem@) && !is_slug(stem@),
            FileName::Slug(stem) => toml_stem(name@) == Some(stem@) && is_slug(stem@),
        },
{
    let v = chars_of(name);
    if v.len() <= 5 || !ends_with(&v, ".toml") {
        return FileName::Other;
    }
    let stem = string_of(&slice_of(&v, 0, v.len() - 5));
    assert(stem@ =~= name@.take(name@.len() - 5));
    if is_valid_slug(stem.as_str()) {
        FileName::Slug(stem)
    } else {
        FileName::BadSlug(stem)
    }
}

/// Whether reading a file gave a document.
pub open spec fn is_loadable<T>(text: Result<String, String>, parsed: Result<T, String>) -> bool {
    text is Ok && toml_error(text->Ok_0@) is None && parsed is Ok
}

/// Why reading a file gave none.
pub open spec fn load_error<T>(
    path: Seq<char>,
    text: Result<String, String>,
    parsed: Result<T, String>,
) -> ErrorView {
    match text {
        Err(source) => ErrorView::Read { path, source: source@ },
        Ok(text) => ErrorView::Parse {
            path,
            message: match toml_error(text@) {
                Some(m) => m,
                None => parsed->Err_0@,
            },
        },
    }
}

/// What is wrong with a schema version.
///
/// Version 1 needs no migration yet; nothing older can be migrated.
pub open spec fn schema_problems(path: Seq<char>, found: u32) -> Seq<ErrorView> {
    if found > CURRENT_SCHEMA {
        seq![ErrorView::SchemaTooNew { path, found, max: CURRENT_SCHEMA }]
    } else if found < 1 {
        seq![ErrorView::NoMigration { path, from: found }]
    } else {
        seq![]
    }
}

/// Version gate. Whether what was read may be used.
///
/// A *newer* schema is refused rather than guessed at: silently ignoring fields that are not
/// understood would apply a config that the user did not write.
fn check_schema(path: &str, found: u32, report: &mut LoadReport) -> (usable: bool)
    ensures
        usable == (found <= CURRENT_SCHEMA),
        error_views(final(report).problems@) == error_views(old(report).problems@)
            + schema_problems(path@, found),
{
    let ghost before = report.problems@;
    if found > CURRENT_SCHEMA {
        report.problems.push(
            Error::SchemaTooNew { path: owned(path), found, max: CURRENT_SCHEMA },
        );
    } else if found < 1 {
        report.problems.push(Error::NoMigration { path: owned(path), from: found });
    }
    assert(error_views(report.problems@) =~= error_views(before) + schema_problems(path@, found));
    found <= CURRENT_SCHEMA
}

/// Whether a file adds to the store.
pub open spec fn is_accepted<T: Versioned>(f: FoundFile<T>) -> bool {
    &&& toml_stem(f.name@) is Some
    &&& is_slug(toml_stem(f.name@)->0)
    &&& is_loadable(f.text, f.parsed)
    &&& f.parsed->Ok_0.version() <= CURRENT_SCHEMA
}

/// What is wrong with one file.
pub open spec fn file_problems<T: Versioned>(f: FoundFile<T>) -> Seq<ErrorView> {
    if toml_stem(f.name@) is None {
        seq![]
    } else if !is_slug(toml_stem(f.name@)->0) {
        seq![ErrorView::BadSlug { what: "file"@, name: toml_stem(f.name@)->0 }]
    } else if !is_loadable(f.text, f.parsed) {
        seq![load_error(f.path@, f.text, f.parsed)]
    } else {
        schema_problems(f.path@, f.parsed->Ok_0.version())
    }
}

/// What is wrong with the files of a directory, in the order in which they were found.
pub open spec fn dir_problems<T: Versioned>(files: Seq<FoundFile<T>>) -> Seq<ErrorView>
    decreases files.len(),
{
    if files.len() == 0 {
        seq![]
    } else {
        dir_problems(files.drop_last()) + file_problems(files.last())
    }
}

/// The position of the file behind each slug.
pub open spec fn file_of<T: Versioned>(files: Seq<FoundFile<T>>) -> Map<Seq<char>, int>
    decreases files.len(),
{
    if files.len() == 0 {
        Map::empty()
    } else if is_accepted(files.last()) {
        file_of(files.drop_last()).insert(toml_stem(files.last().name@)->0, files.len() - 1)
    } else {
        file_of(files.drop_last())
    }
}

/// Whether `d` is the unchanged document of file `f`.
pub open spec fn is_document_of<T>(d: Document<T>, f: FoundFile<T>) -> bool {
    &&& d.typed() == f.parsed->Ok_0
    &&& document_text(d.document()) == toml_reprint(f.text->Ok_0@)
    &&& d.file() == f.path@
    &&& !d.changed()
}

/// Whether `m` holds a document for every accepted file and nothing else.
pub open spec fn holds_files<T: Versioned>(
    m: Map<Seq<char>, Document<T>>,
    files: Seq<FoundFile<T>>,
) -> bool {
    &&& m.dom() == file_of(files).dom()
    &&& forall|slug: Seq<char>| #[trigger]
        m.contains_key(slug) ==> is_document_of(m[slug], files[file_of(files)[slug]])
}

proof fn lemma_file_of<T: Versioned>(files: Seq<FoundFile<T>>)
    ensures
        forall|slug: Seq<char>| #[trigger]
            file_of(files).contains_key(slug) ==> 0 <= file_of(files)[slug] < files.len(),
    decreases files.len(),
{
    if files.len() > 0 {
        let rest = file_of(files.drop_last());
        lemma_file_of(files.drop_last());
        assert forall|slug: Seq<char>| #[trigger] file_of(files).contains_key(slug) implies 0
            <= file_of(files)[slug] < files.len() by {
            if rest.contains_key(slug) {
                assert(0 <= rest[slug] < files.len());
            }
        }
    }
}

/// The documents of a directory, by slug. A missing directory has no files, and no problems.
fn load_dir<T: Versioned>(files: Vec<FoundFile<T>>, report: &mut LoadReport) -> (r: Dict<
    Document<T>,
>)
    ensures
        holds_files(r.map(), files@),
        error_views(final(report).problems@) == error_views(old(report).problems@) + dir_problems(
            files@,
        ),
{
    let ghost all = files@;
    let ghost base = error_views(report.problems@);
    let mut files = files;
    let mut out: Dict<Document<T>> = Dict::new();
    let ghost mut n: int = 0;
    proof {
        assert(all.take(0) =~= Seq::<FoundFile<T>>::empty());
        assert(all.skip(0) =~= all);
        assert(out.map().dom() =~= file_of(all.take(0)).dom());
        assert(base + dir_problems(all.take(0)) =~= base);
    }
    while files.len() > 0
        invariant
            0 <= n <= all.len(),
            files@ == all.skip(n),
            holds_files(out.map(), all.take(n)),
            error_views(report.problems@) == base + dir_problems(all.take(n)),
        decreases files.len(),
    {
        let ghost seen = all.take(n);
        let ghost now = all.take(n + 1);
        let ghost before = out.map();
        let ghost problems = report.problems@;
        let file = files.remove(0);
        proof {
            assert(file == all[n]);
            assert(files@ =~= all.skip(n + 1));
            assert(now.drop_last() =~= seen);
            assert(now.last() == file);
            lemma_file_of(seen);
        }
        match file_name(file.name.as_str()) {
            FileName::Other => {
                assert(base + dir_problems(now) =~= base + dir_problems(seen));
            },
            FileName::BadSlug(stem) => {
                let ghost bad = ErrorView::BadSlug { what: "file"@, name: stem@ };
                report.problems.push(Error::BadSlug { what: owned("file"), name: stem });
                proof {
                    assert(file_problems(file) =~= seq![bad]);
                    assert(error_views(report.problems@) =~= error_views(problems).push(bad));
                    assert(error_views(report.problems@) =~= base + dir_problems(now));
                }
            },
            FileName::Slug(stem) => {
                match Document::load(file.path.as_str(), file.text, file.parsed) {
                    Ok(doc) => {
                        let usable = check_schema(
                            file.path.as_str(),
                            doc.data().schema_version(),
                            report,
                        );
                        assert(usable == is_accepted(file));
                        if usable {
                            out.insert(stem, doc);
                        }
                        proof {
                            assert(out.map().dom() =~= file_of(now).dom());
                            assert(error_views(report.problems@) =~= base + dir_problems(now));
                        }
                    },
                    Err(e) => {
                        report.problems.push(e);
                        proof {
                            assert(error_views(report.problems@) =~= error_views(problems).push(
                                load_error(file.path@, file.text, file.parsed),
                            ));
                            assert(error_views(report.problems@) =~= base + dir_problems(now));
                        }
                    },
                }
            },
        }
        proof {
            assert forall|slug: Seq<char>| #[trigger] out.map().contains_key(
                slug,
            ) implies is_document_of(out.map()[slug], now[file_of(now)[slug]]) by {
                if is_accepted(file) && slug == toml_stem(file.name@)->0 {
                } else {
                    assert(before.contains_key(slug));
                    assert(now[file_of(seen)[slug]] == seen[file_of(seen)[slug]]);
                }
            }
            n = n + 1;
        }
    }
    assert(all.take(n) =~= all);
    out
}

/// The do-nothing preset.
///
/// Named `raw` rather than `flat`, because "flat" names a *kind of acceleration curve* and would
/// imply the signal is still being shaped.
pub open spec fn is_raw(p: Preset) -> bool {
    &&& p.schema == CURRENT_SCHEMA
    &&& p.display_name is Some
    &&& p.display_name->0@ == "Raw"@
    &&& p.stages@.len() == 1
    &&& p.stages@[0].kind@ == "normalize"@
    &&& p.stages@[0].id is None
    &&& p.stages@[0].enabled
    &&& p.stages@[0].params.map() == Map::<Seq<char>, Datum>::empty()
}

fn builtin_raw() -> (r: Preset)
    ensures
        is_raw(r),
{
    Preset {
        schema: CURRENT_SCHEMA,
        display_name: Some(owned("Raw")),
        stages: vec![
            StageEntry { kind: owned("normalize"), id: None, enabled: true, params: Dict::new() },
        ],
    }
}

/// What `schema = 1` alone says.
pub open spec fn is_first_run(r: Root) -> bool {
    &&& r.schema == 1
    &&& r.defaults.profile is None
    &&& r.defaults.toggle_binding is None
    &&& r.defaults.overrides.map() == Map::<Seq<char>, Datum>::empty()
    &&& r.groups@.len() == 0
    &&& r.devices@.len() == 0
    &&& r.tablet_support.map() == Map::<Seq<char>, bool>::empty()
    &&& r.scroll_freeze.map() == Map::<Seq<char>, bool>::empty()
}

fn first_run_root() -> (r: Root)
    ensures
        is_first_run(r),
{
    Root {
        schema: 1,
        defaults: Defaults::default(),
        groups: Vec::new(),
        devices: Vec::new(),
        tablet_support: Dict::new(),
        scroll_freeze: Dict::new(),
    }
}

pub struct Store {
    pub dir: String,
    pub root: Document<Root>,
    pub presets: Dict<Document<Preset>>,
    pub profiles: Dict<Document<Profile>>,
    /// Stands in for `raw` when the user has no `presets/raw.toml`.
    pub builtin_raw: Preset,
}

/// What reading `config.toml` gave.
pub struct RootFile {
    pub text: Result<String, String>,
    pub parsed: Result<Root, String>,
}

pub open spec fn root_loads(root: Option<RootFile>) -> bool {
    &&& root is Some
    &&& is_loadable(root->0.text, root->0.parsed)
    &&& root->0.parsed->Ok_0.schema <= CURRENT_SCHEMA
}

/// What is wrong with `config.toml`.
pub open spec fn root_problems(path: Seq<char>, root: Option<RootFile>) -> Seq<ErrorView> {
    match root {
        None => seq![],
        Some(f) => if is_loadable(f.text, f.parsed) {
            schema_problems(path, f.parsed->Ok_0.schema)
        } else {
            seq![load_error(path, f.text, f.parsed)]
        },
    }
}

/// The preset behind a slug.
pub open spec fn preset_for(store: Store, slug: Seq<char>) -> Option<Preset> {
    if store.presets.map().contains_key(slug) {
        Some(store.presets.map()[slug].typed())
    } else if slug == RAW@ {
        Some(store.builtin_raw)
    } else {
        None
    }
}

/// The references of one profile that lead nowhere, up to its `n`th mode.
pub open spec fn dangling_modes(
    store: Store,
    slug: Seq<char>,
    p: Profile,
    n: int,
) -> Seq<ErrorView>
    decreases n,
{
    if n <= 0 {
        seq![]
    } else {
        let rest = dangling_modes(store, slug, p, n - 1);
        let preset = p.modes@[n - 1].preset@;
        if preset_for(store, preset) is None {
            rest.push(ErrorView::DanglingPreset { profile: slug, mode: n, preset })
        } else {
            rest
        }
    }
}

/// The references of several profiles that lead nowhere.
pub open spec fn dangling(store: Store, slugs: Seq<Seq<char>>) -> Seq<ErrorView>
    decreases slugs.len(),
{
    if slugs.len() == 0 {
        seq![]
    } else {
        let p = store.profiles.map()[slugs.last()].typed();
        dangling(store, slugs.drop_last()) + dangling_modes(
            store,
            slugs.last(),
            p,
            p.modes@.len() as int,
        )
    }
}

/// Whether a profile uses a preset.
pub open spec fn refers_to(p: Profile, preset: Seq<char>) -> bool {
    exists|i: int| 0 <= i < p.modes@.len() && (#[trigger] p.modes@[i]).preset@ == preset
}

/// Those of `slugs` whose profile uses a preset.
pub open spec fn referring(store: Store, slugs: Seq<Seq<char>>, preset: Seq<char>) -> Seq<
    Seq<char>,
>
    decreases slugs.len(),
{
    if slugs.len() == 0 {
        seq![]
    } else {
        let rest = referring(store, slugs.drop_last(), preset);
        if refers_to(store.profiles.map()[slugs.last()].typed(), preset) {
            rest.push(slugs.last())
        } else {
            rest
        }
    }
}

/// The slug of the profile to activate at startup: the one that the config names, if it is
/// there, else the first.
pub open spec fn startup_slug(store: Store) -> Option<Seq<char>> {
    let named = store.root.typed().defaults.profile;
    if named is Some && store.profiles.map().contains_key(named->0@) {
        Some(named->0@)
    } else if store.profiles.listed().len() > 0 {
        Some(store.profiles.listed()[0].0)
    } else {
        None
    }
}

fn uses(p: &Profile, preset: &str) -> (r: bool)
    ensures
        r == refers_to(*p, preset@),
{
    let mut i: usize = 0;
    while i < p.modes.len()
        invariant
            i <= p.modes.len(),
            forall|j: int| 0 <= j < i ==> (#[trigger] p.modes@[j]).preset@ != preset@,
        decreases p.modes.len() - i,
    {
        if same_text(p.modes[i].preset.as_str(), preset) {
            assert(p.modes@[i as int].preset@ == preset@);
            return true;
        }
        i += 1;
    }
    false
}

/// Whether a store holds what the files of a config directory say, and the report what is wrong
/// with them.
pub open spec fn is_loaded(
    store: Store,
    report: LoadReport,
    root_path: Seq<char>,
    root: Option<RootFile>,
    presets: Seq<FoundFile<Preset>>,
    profiles: Seq<FoundFile<Profile>>,
) -> bool {
    &&& store.root.file() == root_path
    &&& !store.root.changed()
    &&& if root_loads(root) {
        &&& store.root.typed() == root->0.parsed->Ok_0
        &&& document_text(store.root.document()) == toml_reprint(root->0.text->Ok_0@)
    } else {
        &&& is_first_run(store.root.typed())
        &&& document_text(store.root.document()) == toml_reprint("schema = 1\n"@)
    }
    &&& holds_files(store.presets.map(), presets)
    &&& holds_files(store.profiles.map(), profiles)
    &&& is_raw(store.builtin_raw)
    &&& error_views(report.problems@) == root_problems(root_path, root) + dir_problems(presets)
        + dir_problems(profiles)
}

impl Store {
    /// A store from the files of a config directory. A missing directory is a first run, not an
    /// error: it has no `config.toml` and no other files.
    ///
    /// A `config.toml` that cannot be used is reported, and the defaults take its place rather
    /// than the daemon refusing to start.
    pub fn load(
        dir: &str,
        root_path: &str,
        root: Option<RootFile>,
        presets: Vec<FoundFile<Preset>>,
        profiles: Vec<FoundFile<Profile>>,
    ) -> (r: Result<(Self, LoadReport), Error>)
        ensures
            r is Ok <==> root_loads(root) || toml_error("schema = 1\n"@) is None,
            r matches Ok((store, report)) ==> store.dir@ == dir@ && is_loaded(
                store,
                report,
                root_path@,
                root,
                presets@,
                profiles@,
            ),
            r matches Err(e) ==> e@ == (ErrorView::Parse {
                path: root_path@,
                message: toml_error("schema = 1\n"@)->0,
            }),
    {
        let mut report = LoadReport::default();
        assert(error_views(report.problems@) =~= Seq::<ErrorView>::empty());
        let ghost given = root;
        let found = match root {
            Some(f) => match Document::load(root_path, f.text, f.parsed) {
                Ok(d) => if check_schema(root_path, d.data().schema, &mut report) {
                    Some(d)
                } else {
                    None
                },
                Err(e) => {
                    report.problems.push(e);
                    None
                },
            },
            None => None,
        };
        let root = match found {
            Some(d) => d,
            None => match Document::from_str(root_path, "schema = 1\n", Ok(first_run_root())) {
                Ok(d) => d,
                Err(e) => {
                    return Err(e);
                },
            },
        };
        assert(error_views(report.problems@) =~= root_problems(root_path@, given));
        let presets = load_dir(presets, &mut report);
        let profiles = load_dir(profiles, &mut report);
        let store = Store { dir: owned(dir), root, presets, profiles, builtin_raw: builtin_raw() };
        Ok((store, report))
    }

    pub fn dir(&self) -> (r: &str)
        ensures
            r@ == self.dir@,
    {
        self.dir.as_str()
    }

    /// A preset by slug, falling back to the built-in `raw`.
    ///
    /// `raw` must always resolve: it is the fallback a mode drops to when its own preset is
    /// missing, so it cannot itself be missing.
    pub fn preset(&self, slug: &str) -> (r: Option<&Preset>)
        ensures
            r is Some <==> preset_for(*self, slug@) is Some,
            r matches Some(p) ==> preset_for(*self, slug@) == Some(*p),
    {
        match self.presets.get(slug) {
            Some(d) => Some(d.data()),
            None => if same_text(slug, RAW) {
                Some(&self.builtin_raw)
            } else {
                None
            },
        }
    }

    pub fn profile(&self, slug: &str) -> (r: Option<&Profile>)
        ensures
            r is Some <==> self.profiles.map().contains_key(slug@),
            r matches Some(p) ==> *p == self.profiles.map()[slug@].typed(),
    {
        match self.profiles.get(slug) {
            Some(d) => Some(d.data()),
            None => None,
        }
    }

    /// Every preset's slug in order, `raw` among them.
    pub fn preset_slugs(&self) -> (r: Vec<String>)
        ensures
            views(r@) == in_key_order(self.presets.map().dom().insert(RAW@)),
    {
        let mut all = key_set(&self.presets);
        all.insert(owned(RAW), true);
        let r = keys(&all);
        assert(all.map().dom() =~= self.presets.map().dom().insert(RAW@));
        r
    }

    /// Every profile's slug in order.
    pub fn profile_slugs(&self) -> (r: Vec<String>)
        ensures
            views(r@) == in_key_order(self.profiles.map().dom()),
    {
        keys(&self.profiles)
    }

    /// Every mode whose preset does not exist.
    ///
    /// A dangling reference makes that mode refuse to activate and fall back to raw passthrough:
    /// never a silent substitution, which would leave someone drawing with settings they did not
    /// choose and cannot see.
    pub fn dangling_references(&self) -> (r: Vec<Error>)
        ensures
            error_views(r@) == dangling(*self, in_key_order(self.profiles.map().dom())),
    {
        let mut out: Vec<Error> = Vec::new();
        self.profiles.in_order();
        let ghost slugs = keys_of(self.profiles.listed());
        let mut i: usize = 0;
        proof {
            assert(slugs.take(0) =~= Seq::<Seq<char>>::empty());
            assert(error_views(out@) =~= dangling(*self, slugs.take(0)));
        }
        while i < self.profiles.len()
            invariant
                i <= self.profiles.listed().len(),
                slugs == keys_of(self.profiles.listed()),
                forall|key: Seq<char>, j: int| #[trigger]
                    key_at(self.profiles.listed(), key, j) ==> self.profiles.map().contains_key(key)
                        && self.profiles.map()[key] == self.profiles.listed()[j].1,
                error_views(out@) == dangling(*self, slugs.take(i as int)),
            decreases self.profiles.listed().len() - i,
        {
            let slug = self.profiles.key(i);
            let profile = self.profiles.value(i).data();
            let ghost now = slugs.take(i + 1);
            let ghost base = dangling(*self, slugs.take(i as int));
            proof {
                assert(key_at(self.profiles.listed(), slug@, i as int));
                assert(now.drop_last() =~= slugs.take(i as int));
                assert(now.last() == slug@);
                assert(base + dangling_modes(*self, slug@, *profile, 0) =~= base);
            }
            let mut n: usize = 0;
            while n < profile.modes.len()
                invariant
                    n <= profile.modes.len(),
                    error_views(out@) == base + dangling_modes(*self, slug@, *profile, n as int),
                decreases profile.modes.len() - n,
            {
                let preset = profile.modes[n].preset.as_str();
                if self.preset(preset).is_none() {
                    let ghost before = out@;
                    out.push(
                        Error::DanglingPreset {
                            profile: owned(slug),
                            mode: n + 1,
                            preset: owned(preset),
                        },
                    );
                    proof {
                        assert(error_views(out@) =~= error_views(before).push(out@.last()@));
                        assert(error_views(out@) =~= base + dangling_modes(
                            *self,
                            slug@,
                            *profile,
                            n + 1,
                        ));
                    }
                }
                n += 1;
            }
            i += 1;
        }
        assert(slugs.take(i as int) =~= slugs);
        out
    }

    /// The profiles that reference a preset. One with referrers must not be deleted.
    pub fn referrers_of(&self, preset: &str) -> (r: Vec<String>)
        ensures
            views(r@) == referring(*self, in_key_order(self.profiles.map().dom()), preset@),
    {
        let mut out: Vec<String> = Vec::new();
        self.profiles.in_order();
        let ghost slugs = keys_of(self.profiles.listed());
        let mut i: usize = 0;
        proof {
            assert(slugs.take(0) =~= Seq::<Seq<char>>::empty());
            assert(views(out@) =~= referring(*self, slugs.take(0), preset@));
        }
        while i < self.profiles.len()
            invariant
                i <= self.profiles.listed().len(),
                slugs == keys_of(self.profiles.listed()),
                forall|key: Seq<char>, j: int| #[trigger]
                    key_at(self.profiles.listed(), key, j) ==> self.profiles.map().contains_key(key)
                        && self.profiles.map()[key] == self.profiles.listed()[j].1,
                views(out@) == referring(*self, slugs.take(i as int), preset@),
            decreases self.profiles.listed().len() - i,
        {
            let slug = self.profiles.key(i);
            let ghost now = slugs.take(i + 1);
            proof {
                assert(key_at(self.profiles.listed(), slug@, i as int));
                assert(now.drop_last() =~= slugs.take(i as int));
                assert(now.last() == slug@);
            }
            if uses(self.profiles.value(i).data(), preset) {
                let ghost before = out@;
                out.push(owned(slug));
                assert(views(out@) =~= views(before).push(slug@));
            }
            i += 1;
        }
        assert(slugs.take(i as int) =~= slugs);
        out
    }

    /// Which profile to activate at startup.
    pub(crate) fn default_profile_slug(&self) -> (r: Option<String>)
        ensures
            r is Some <==> startup_slug(*self) is Some,
            r matches Some(s) ==> startup_slug(*self) == Some(s@),
    {
        if let Some(named) = &self.root.data().defaults.profile {
            if self.profiles.get(named.as_str()).is_some() {
                return Some(owned(named.as_str()));
            }
        }
        if self.profiles.len() > 0 {
            Some(owned(self.profiles.key(0)))
        } else {
            None
        }
    }

    pub fn startup_profile(&self) -> (r: Option<&Profile>)
        ensures
            r is Some <==> startup_slug(*self) is Some,
            r matches Some(p) ==> *p == self.profiles.map()[startup_slug(*self)->0].typed(),
    {
        let r = match self.default_profile_slug() {
            Some(slug) => self.profile(slug.as_str()),
            None => None,
        };
        self.profiles.in_order();
        proof {
            if self.profiles.listed().len() > 0 {
                assert(key_at(self.profiles.listed(), self.profiles.listed()[0].0, 0));
            }
        }
        r
    }
}

/// The keys of a map.
fn keys<V>(d: &Dict<V>) -> (r: Vec<String>)
    ensures
        views(r@) == in_key_order(d.map().dom()),
{
    d.in_order();
    let mut r: Vec<String> = Vec::new();
    let mut i: usize = 0;
    assert(views(r@) =~= keys_of(d.listed()).take(0));
    while i < d.len()
        invariant
            i <= d.listed().len(),
            views(r@) == keys_of(d.listed()).take(i as int),
        decreases d.listed().len() - i,
    {
        let key = owned(d.key(i));
        let ghost before = r@;
        r.push(key);
        proof {
            assert(views(r@) =~= views(before).push(key@));
            assert(keys_of(d.listed()).take(i + 1) =~= keys_of(d.listed()).take(i as int).push(
                key@,
            ));
        }
        i += 1;
    }
    assert(views(r@) =~= keys_of(d.listed()));
    r
}

/// A map with the same keys.
fn key_set<V>(d: &Dict<V>) -> (r: Dict<bool>)
    ensures
        r.map().dom() == d.map().dom(),
{
    d.in_order();
    let mut r: Dict<bool> = Dict::new();
    let mut i: usize = 0;
    while i < d.len()
        invariant
            i <= d.listed().len(),
            forall|key: Seq<char>, j: int| #[trigger]
                key_at(d.listed(), key, j) ==> d.map().contains_key(key),
            forall|key: Seq<char>| #[trigger]
                r.map().contains_key(key) <==> exists|j: int| j < i && key_at(d.listed(), key, j),
        decreases d.listed().len() - i,
    {
        let key = owned(d.key(i));
        let ghost before = r.map();
        let ghost k = key@;
        assert(key_at(d.listed(), k, i as int));
        r.insert(key, true);
        proof {
            assert forall|key: Seq<char>| #[trigger] r.map().contains_key(key) <==> exists|j: int|
                j < i + 1 && key_at(d.listed(), key, j) by {
                assert(before.contains_key(key) <==> exists|j: int|
                    j < i && key_at(d.listed(), key, j));
                if exists|j: int| j < i + 1 && key_at(d.listed(), key, j) {
                    let j = choose|j: int| j < i + 1 && key_at(d.listed(), key, j);
                    if j == i {
                        assert(key == k);
                    }
                }
            }
        }
        i += 1;
    }
    proof {
        assert forall|key: Seq<char>| #[trigger] d.map().dom().contains(key) implies r.map().dom().contains(
        key) by {
            let j = choose|j: int| key_at(d.listed(), key, j);
            assert(j < i && key_at(d.listed(), key, j));
            assert(r.map().contains_key(key));
        }
        assert forall|key: Seq<char>| #[trigger] r.map().dom().contains(key) implies d.map().dom().contains(
        key) by {
            assert(r.map().contains_key(key));
        }
        assert(r.map().dom() =~= d.map().dom());
    }
    r
}

/// `raw` always resolves: to the user's own file where there is one, else to the built-in.
pub proof fn law_raw_always_resolves(store: Store)
    ensures
        preset_for(store, RAW@) == Some(
            if store.presets.map().contains_key(RAW@) {
                store.presets.map()[RAW@].typed()
            } else {
                store.builtin_raw
            },
        ),
{
}

/// A file that is refused changes neither the documents nor the problems of the others.
pub proof fn law_one_bad_file_costs_only_itself<T: Versioned>(
    files: Seq<FoundFile<T>>,
    bad: FoundFile<T>,
)
    requires
        !is_accepted(bad),
    ensures
        file_of(files.push(bad)) == file_of(files),
        dir_problems(files.push(bad)) == dir_problems(files) + file_problems(bad),
{
    assert(files.push(bad).drop_last() =~= files);
}

/// A file of a newer schema is refused, and said to be one.
pub proof fn law_a_newer_schema_is_refused<T: Versioned>(f: FoundFile<T>)
    requires
        toml_stem(f.name@) is Some,
        is_slug(toml_stem(f.name@)->0),
        is_loadable(f.text, f.parsed),
        f.parsed->Ok_0.version() > CURRENT_SCHEMA,
    ensures
        !is_accepted(f),
        file_problems(f) == seq![
            ErrorView::SchemaTooNew {
                path: f.path@,
                found: f.parsed->Ok_0.version(),
                max: CURRENT_SCHEMA,
            },
        ],
{
}

proof fn lemma_dangling_modes(store: Store, slug: Seq<char>, p: Profile, n: int, i: int)
    requires
        0 <= i < n <= p.modes@.len(),
        preset_for(store, p.modes@[i].preset@) is None,
    ensures
        dangling_modes(store, slug, p, n).contains(
            ErrorView::DanglingPreset { profile: slug, mode: i + 1, preset: p.modes@[i].preset@ },
        ),
    decreases n,
{
    let e = ErrorView::DanglingPreset { profile: slug, mode: i + 1, preset: p.modes@[i].preset@ };
    let all = dangling_modes(store, slug, p, n);
    if i == n - 1 {
        assert(all[all.len() - 1] == e);
    } else {
        lemma_dangling_modes(store, slug, p, n - 1, i);
        let rest = dangling_modes(store, slug, p, n - 1);
        let k = choose|k: int| 0 <= k < rest.len() && rest[k] == e;
        assert(all[k] == e);
    }
}

/// Every mode that names a missing preset is reported, with its profile and its 1-based slot.
pub proof fn law_every_dangling_mode_is_reported(
    store: Store,
    slugs: Seq<Seq<char>>,
    k: int,
    i: int,
)
    requires
        0 <= k < slugs.len(),
        0 <= i < store.profiles.map()[slugs[k]].typed().modes@.len(),
        preset_for(store, store.profiles.map()[slugs[k]].typed().modes@[i].preset@) is None,
    ensures
        dangling(store, slugs).contains(
            ErrorView::DanglingPreset {
                profile: slugs[k],
                mode: i + 1,
                preset: store.profiles.map()[slugs[k]].typed().modes@[i].preset@,
            },
        ),
    decreases slugs.len(),
{
    let p = store.profiles.map()[slugs[k]].typed();
    let e = ErrorView::DanglingPreset { profile: slugs[k], mode: i + 1, preset: p.modes@[i].preset@ };
    let all = dangling(store, slugs);
    let rest = dangling(store, slugs.drop_last());
    if k == slugs.len() - 1 {
        lemma_dangling_modes(store, slugs[k], p, p.modes@.len() as int, i);
        let own = dangling_modes(store, slugs[k], p, p.modes@.len() as int);
        let j = choose|j: int| 0 <= j < own.len() && own[j] == e;
        assert(all[rest.len() + j] == e);
    } else {
        assert(slugs.drop_last()[k] == slugs[k]);
        law_every_dangling_mode_is_reported(store, slugs.drop_last(), k, i);
        let j = choose|j: int| 0 <= j < rest.len() && rest[j] == e;
        assert(all[j] == e);
    }
}

/// A profile is a referrer of a preset exactly when one of its modes names it.
pub proof fn law_referrers_are_the_profiles_that_name_it(
    store: Store,
    slugs: Seq<Seq<char>>,
    preset: Seq<char>,
    slug: Seq<char>,
)
    ensures
        referring(store, slugs, preset).contains(slug) <==> slugs.contains(slug) && refers_to(
            store.profiles.map()[slug].typed(),
            preset,
        ),
    decreases slugs.len(),
{
    if slugs.len() > 0 {
        let rest = slugs.drop_last();
        law_referrers_are_the_profiles_that_name_it(store, rest, preset, slug);
        let all = referring(store, slugs, preset);
        let some = referring(store, rest, preset);
        if slugs.contains(slug) {
            let k = choose|k: int| 0 <= k < slugs.len() && slugs[k] == slug;
            if k < rest.len() {
                assert(rest[k] == slug);
            }
        }
        if rest.contains(slug) {
            let k = choose|k: int| 0 <= k < rest.len() && rest[k] == slug;
            assert(slugs[k] == slug);
        }
        if some.contains(slug) {
            let k = choose|k: int| 0 <= k < some.len() && some[k] == slug;
            assert(all[k] == slug);
        }
        if all.contains(slug) {
            let k = choose|k: int| 0 <= k < all.len() && all[k] == slug;
            if k < some.len() {
                assert(some[k] == slug);
            } else {
                assert(slugs[slugs.len() - 1] == slug);
            }
        }
        if slugs.last() == slug && refers_to(store.profiles.map()[slug].typed(), preset) {
            assert(all[all.len() - 1] == slug);
        }
    }
}

/// A config file is named for its slug: the slug is the name without `.toml`, and a name that does
/// not end so, or has nothing before it, is no config file.
pub proof fn law_a_file_is_named_for_its_slug(stem: Seq<char>, name: Seq<char>)
    ensures
        stem.len() > 0 ==> toml_stem(stem + ".toml"@) == Some(stem),
        toml_stem(name) matches Some(s) ==> s.len() > 0 && name == s + ".toml"@,
        toml_stem(".toml"@) is None,
{
    reveal_strlit(".toml");
    let n = stem + ".toml"@;
    assert(n.skip(n.len() - 5) =~= ".toml"@);
    assert(".toml"@.is_suffix_of(n));
    assert(n.take(n.len() - 5) =~= stem);
    if toml_stem(name) is Some {
        assert(name =~= name.take(name.len() - 5) + ".toml"@);
    }
}

/// A file is used exactly where its name is a slug's, its text could be read and is TOML, and its
/// typed reading is there and not of a schema beyond the first.
pub proof fn law_what_makes_a_file_usable<T: Versioned>(f: FoundFile<T>, stem: Seq<char>)
    requires
        f.name@ == stem + ".toml"@,
        stem.len() > 0,
    ensures
        is_accepted(f) <==> is_slug(stem) && f.text is Ok && toml_error(f.text->Ok_0@) is None
            && f.parsed is Ok && f.parsed->Ok_0.version() <= 1,
        is_accepted(f) && f.parsed->Ok_0.version() == 1 ==> file_problems(f).len() == 0,
        !is_accepted(f) ==> file_problems(f).len() == 1,
        is_slug(stem) && f.text is Err ==> file_problems(f) == seq![
            ErrorView::Read { path: f.path@, source: f.text->Err_0@ },
        ],
        is_slug(stem) && f.text is Ok && (toml_error(f.text->Ok_0@) matches Some(m))
            ==> file_problems(f) == seq![
            ErrorView::Parse { path: f.path@, message: toml_error(f.text->Ok_0@)->0 },
        ],
        is_slug(stem) && f.text is Ok && toml_error(f.text->Ok_0@) is None && f.parsed is Err
            ==> file_problems(f) == seq![
            ErrorView::Parse { path: f.path@, message: f.parsed->Err_0@ },
        ],
        !is_slug(stem) ==> file_problems(f) == seq![
            ErrorView::BadSlug { what: "file"@, name: stem },
        ],
{
    law_a_file_is_named_for_its_slug(stem, f.name@);
}

/// Of the usable files of one slug the last counts, and a slug without a usable file has none.
pub proof fn law_a_slug_stands_for_its_last_file<T: Versioned>(
    files: Seq<FoundFile<T>>,
    slug: Seq<char>,
)
    ensures
        forall|i: int|
            0 <= i < files.len() && is_accepted(#[trigger] files[i]) && toml_stem(files[i].name@)
                == Some(slug) && (forall|j: int|
                i < j < files.len() ==> !(is_accepted(#[trigger] files[j]) && toml_stem(
                    files[j].name@,
                ) == Some(slug))) ==> file_of(files).contains_key(slug) && file_of(files)[slug]
                == i,
        file_of(files).contains_key(slug) ==> {
            let i = file_of(files)[slug];
            0 <= i < files.len() && is_accepted(files[i]) && toml_stem(files[i].name@) == Some(slug)
        },
    decreases files.len(),
{
    if files.len() > 0 {
        let rest = files.drop_last();
        law_a_slug_stands_for_its_last_file(rest, slug);
        let last = files.len() - 1;
        assert forall|i: int|
            0 <= i < files.len() && is_accepted(#[trigger] files[i]) && toml_stem(files[i].name@)
                == Some(slug) && (forall|j: int|
                i < j < files.len() ==> !(is_accepted(#[trigger] files[j]) && toml_stem(
                    files[j].name@,
                ) == Some(slug))) implies file_of(files).contains_key(slug) && file_of(files)[slug]
            == i by {
            assert(files[last] == files.last());
            if i < last {
                assert(rest[i] == files[i]);
                assert(!(is_accepted(files[last]) && toml_stem(files[last].name@) == Some(slug)));
                assert forall|j: int| i < j < rest.len() implies !(is_accepted(#[trigger] rest[j])
                    && toml_stem(rest[j].name@) == Some(slug)) by {
                    assert(rest[j] == files[j]);
                }
                assert(file_of(rest).contains_key(slug) && file_of(rest)[slug] == i);
                if is_accepted(files.last()) {
                    assert(toml_stem(files.last().name@)->0 != slug);
                }
            } else {
                assert(is_accepted(files.last()));
            }
        }
        if file_of(rest).contains_key(slug) {
            assert(rest[file_of(rest)[slug]] == files[file_of(rest)[slug]]);
        }
    }
}

/// What was loaded for a slug is the typed reading and the text of the file that it stands for,
/// and nothing was changed by loading it.
pub proof fn law_what_is_loaded_is_what_was_found<T: Versioned>(
    m: Map<Seq<char>, Document<T>>,
    files: Seq<FoundFile<T>>,
    slug: Seq<char>,
    i: int,
)
    requires
        holds_files(m, files),
        0 <= i < files.len(),
        is_accepted(files[i]),
        toml_stem(files[i].name@) == Some(slug),
        forall|j: int|
            i < j < files.len() ==> !(is_accepted(#[trigger] files[j]) && toml_stem(files[j].name@)
                == Some(slug)),
    ensures
        m.contains_key(slug),
        m[slug].typed() == files[i].parsed->Ok_0,
        document_text(m[slug].document()) == toml_reprint(files[i].text->Ok_0@),
        m[slug].file() == files[i].path@,
        !m[slug].changed(),
{
    law_a_slug_stands_for_its_last_file(files, slug);
    assert(is_accepted(files[i]));
    assert(file_of(files).dom().contains(slug));
    assert(m.dom().contains(slug));
}

/// Version one is in order. A later one is refused, and an earlier one is reported.
pub proof fn law_only_the_first_schema_is_in_order(path: Seq<char>, found: u32)
    ensures
        schema_problems(path, found).len() == 0 <==> found == 1,
        found > 1 ==> schema_problems(path, found) == seq![
            ErrorView::SchemaTooNew { path, found, max: 1 },
        ],
        found == 0 ==> schema_problems(path, found) == seq![
            ErrorView::NoMigration { path, from: 0 },
        ],
{
}

/// A missing `config.toml` is no problem, and one that cannot be used is one problem and does not
/// count.
pub proof fn law_a_root_that_cannot_be_used_is_reported(path: Seq<char>, f: RootFile)
    ensures
        root_problems(path, None).len() == 0,
        !root_loads(None),
        !root_loads(Some(f)) ==> root_problems(path, Some(f)).len() == 1,
        root_loads(Some(f)) && f.parsed->Ok_0.schema == 1 ==> root_problems(path, Some(f)).len()
            == 0,
        root_loads(Some(f)) <==> f.text is Ok && toml_error(f.text->Ok_0@) is None && f.parsed is Ok
            && f.parsed->Ok_0.schema <= 1,
{
}

/// A slug stands for the user's own preset where there is one. The built-in one stands for `raw`
/// alone, and nothing for any other slug.
pub proof fn law_a_slug_stands_for_the_users_preset(store: Store, slug: Seq<char>)
    ensures
        store.presets.map().contains_key(slug) ==> preset_for(store, slug) == Some(
            store.presets.map()[slug].typed(),
        ),
        !store.presets.map().contains_key(slug) && slug == "raw"@ ==> preset_for(store, slug)
            == Some(store.builtin_raw),
        !store.presets.map().contains_key(slug) && slug != "raw"@ ==> preset_for(store, slug) is None,
{
}

/// Only modes that name a missing preset are reported, each as itself.
pub proof fn law_only_dangling_modes_are_reported(
    store: Store,
    slug: Seq<char>,
    p: Profile,
    n: int,
    e: ErrorView,
)
    requires
        0 <= n <= p.modes@.len(),
        dangling_modes(store, slug, p, n).contains(e),
    ensures
        exists|i: int|
            {
                &&& 0 <= i < n
                &&& preset_for(store, (#[trigger] p.modes@[i]).preset@) is None
                &&& e == (ErrorView::DanglingPreset {
                    profile: slug,
                    mode: i + 1,
                    preset: p.modes@[i].preset@,
                })
            },
    decreases n,
{
    let all = dangling_modes(store, slug, p, n);
    let k = choose|k: int| 0 <= k < all.len() && all[k] == e;
    if n > 0 {
        let rest = dangling_modes(store, slug, p, n - 1);
        if k < rest.len() {
            assert(rest[k] == e);
            law_only_dangling_modes_are_reported(store, slug, p, n - 1, e);
        } else {
            assert(preset_for(store, p.modes@[n - 1].preset@) is None);
        }
    }
}

/// A run starts with the profile that the config names where it is there, else with the first by
/// slug, and with none only where there is none.
pub proof fn law_the_named_profile_starts(store: Store)
    ensures
        store.root.typed().defaults.profile matches Some(n) && store.profiles.map().contains_key(
            n@,
        ) ==> startup_slug(store) == Some(store.root.typed().defaults.profile->0@),
        store.root.typed().defaults.profile is None && store.profiles.listed().len() > 0
            ==> startup_slug(store) == Some(store.profiles.listed()[0].0),
        startup_slug(store) is None ==> store.profiles.listed().len() == 0,
        store.profiles.listed().len() > 0 ==> startup_slug(store) is Some,
{
}

/// A store holds the user's own `config.toml`, text and reading, wherever it can be used, and else
/// one that manages no device and overrides nothing. Loading changes nothing, so nothing is written
/// back, and everything wrong is reported: with the root first, then the presets, then the
/// profiles.
pub proof fn law_loading_keeps_the_users_config(
    store: Store,
    report: LoadReport,
    root_path: Seq<char>,
    root: Option<RootFile>,
    presets: Seq<FoundFile<Preset>>,
    profiles: Seq<FoundFile<Profile>>,
)
    requires
        is_loaded(store, report, root_path, root, presets, profiles),
    ensures
        root matches Some(f) && f.text is Ok && toml_error(f.text->Ok_0@) is None && f.parsed is Ok
            && f.parsed->Ok_0.schema <= 1 ==> store.root.typed() == root->0.parsed->Ok_0
            && document_text(store.root.document()) == toml_reprint(root->0.text->Ok_0@),
        !root_loads(root) ==> store.root.typed().devices@.len() == 0
            && store.root.typed().groups@.len() == 0 && store.root.typed().defaults.profile is None
            && store.root.typed().defaults.overrides.map().dom().is_empty()
            && store.root.typed().schema == 1,
        !store.root.changed(),
        store.root.file() == root_path,
        report.problems@.len() == root_problems(root_path, root).len() + dir_problems(presets).len()
            + dir_problems(profiles).len(),
        root is None && presets.len() == 0 && profiles.len() == 0 ==> report.problems@.len() == 0
            && store.presets.map().dom().is_empty() && store.profiles.map().dom().is_empty(),
{
    assert(error_views(report.problems@).len() == report.problems@.len());
    if presets.len() == 0 {
        assert(store.presets.map().dom() =~= Set::<Seq<char>>::empty());
    }
    if profiles.len() == 0 {
        assert(store.profiles.map().dom() =~= Set::<Seq<char>>::empty());
    }
    if !root_loads(root) {
        assert(store.root.typed().defaults.overrides.map().dom() =~= Set::<Seq<char>>::empty());
    }
}

/// The built-in preset does nothing but scale: it has one stage, which is enabled and has no
/// parameter of its own.
pub proof fn law_the_built_in_preset_only_scales(p: Preset)
    requires
        is_raw(p),
    ensures
        p.stages@.len() == 1,
        p.stages@[0].kind@ == "normalize"@,
        p.stages@[0].enabled,
        p.stages@[0].params.map().dom().is_empty(),
        p.schema == 1,
{
    assert(p.stages@[0].params.map().dom() =~= Set::<Seq<char>>::empty());
}

} // verus!

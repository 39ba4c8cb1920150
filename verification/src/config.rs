use vstd::prelude::*;
use crate::registry::opt_view;
use crate::text::{chars_of, contains, contains_text, lowercase_of, owned, slice_vec, string_of, trim_range, trim_spec, to_lowercase};

verus! {

// ---------------------------------------------------------------------------
// Sources
// ---------------------------------------------------------------------------

/// A manga source that the application can list.
pub struct Source {
    pub id: String,
    pub name: String,
    pub url: String,
    pub language: String,
    pub region: String,
    pub enabled: bool,
    pub priority: u32,
    pub description: Option<String>,
}

/// The value of a source.
pub struct SourceView {
    pub id: Seq<char>,
    pub name: Seq<char>,
    pub url: Seq<char>,
    pub language: Seq<char>,
    pub region: Seq<char>,
    pub enabled: bool,
    pub priority: u32,
    pub description: Option<Seq<char>>,
}

impl View for Source {
    type V = SourceView;

    open spec fn view(&self) -> SourceView {
        SourceView {
            id: self.id@,
            name: self.name@,
            url: self.url@,
            language: self.language@,
            region: self.region@,
            enabled: self.enabled,
            priority: self.priority,
            description: opt_view(self.description),
        }
    }
}

/// The values of a list of sources.
pub open spec fn source_views(v: Seq<Source>) -> Seq<SourceView> {
    v.map_values(|s: Source| s@)
}

/// The sources used when the bundled list cannot be read: Manga Livre, then MangaDex.
pub open spec fn default_sources_spec() -> Seq<SourceView> {
    seq![
        SourceView {
            id: "mangalivre"@,
            name: "Manga Livre"@,
            url: "https://mangalivre.to"@,
            language: "Português"@,
            region: "BR"@,
            enabled: true,
            priority: 1,
            description: Some("Acervo enorme de mangá e manhwa"@),
        },
        SourceView {
            id: "mangadex"@,
            name: "MangaDex"@,
            url: "https://mangadex.org"@,
            language: "Multilíngue"@,
            region: "GLOBAL"@,
            enabled: true,
            priority: 2,
            description: Some("Plataforma global com várias traduções"@),
        },
    ]
}

/// The sources used when the bundled list cannot be read.
pub fn default_sources() -> (r: Vec<Source>)
    ensures
        source_views(r@) == default_sources_spec(),
{
    let r = vec![
        Source {
            id: owned("mangalivre"),
            name: owned("Manga Livre"),
            url: owned("https://mangalivre.to"),
            language: owned("Português"),
            region: owned("BR"),
            enabled: true,
            priority: 1,
            description: Some(owned("Acervo enorme de mangá e manhwa")),
        },
        Source {
            id: owned("mangadex"),
            name: owned("MangaDex"),
            url: owned("https://mangadex.org"),
            language: owned("Multilíngue"),
            region: owned("GLOBAL"),
            enabled: true,
            priority: 2,
            description: Some(owned("Plataforma global com várias traduções")),
        },
    ];
    proof {
        assert(source_views(r@) =~= default_sources_spec());
    }
    r
}

/// The sources loaded: the bundled list when it parsed, else the defaults.
pub fn sources_or_default(parsed: Option<Vec<Source>>) -> (r: Vec<Source>)
    ensures
        match parsed {
            Some(v) => r@ == v@,
            None => source_views(r@) == default_sources_spec(),
        },
{
    match parsed {
        Some(v) => v,
        None => default_sources(),
    }
}

/// A source that the application exposes: Niadd or Manga Livre.
pub open spec fn exposed_source(s: SourceView) -> bool {
    s.id == "niadd"@ || s.id == "mangalivre"@
}

/// The exposed sources among the first `k`, in order.
pub open spec fn exposed_upto(v: Seq<SourceView>, k: int) -> Seq<SourceView>
    decreases k,
{
    if k <= 0 {
        Seq::empty()
    } else if exposed_source(v[k - 1]) {
        exposed_upto(v, k - 1).push(v[k - 1])
    } else {
        exposed_upto(v, k - 1)
    }
}

/// The number of enabled sources.
pub open spec fn enabled_count(v: Seq<SourceView>) -> nat
    decreases v.len(),
{
    if v.len() == 0 {
        0
    } else {
        enabled_count(v.drop_last()) + if v.last().enabled { 1nat } else { 0nat }
    }
}

/// Whether two strings hold the same text.
fn same(a: &String, lit: &str) -> (r: bool)
    ensures
        r == (a@ == lit@),
{
    crate::text::same_chars(&chars_of(a.as_str()), &chars_of(lit))
}

/// The sources that the application exposes, in order, and how many of them are enabled.
pub fn available_sources(all: Vec<Source>) -> (r: (Vec<Source>, usize))
    ensures
        source_views(r.0@) == exposed_upto(source_views(all@), all@.len() as int),
        r.1 as nat == enabled_count(source_views(r.0@)),
{
    let ghost av = source_views(all@);
    let mut all = all;
    let mut out: Vec<Source> = Vec::new();
    let mut enabled: usize = 0;
    let mut k: usize = 0;
    let n = all.len();
    proof {
        assert(source_views(out@) =~= Seq::<SourceView>::empty());
    }
    while k < n
        invariant
            k <= n,
            n == all@.len(),
            av == source_views(all@),
            source_views(out@) == exposed_upto(av, k as int),
            enabled as nat == enabled_count(source_views(out@)),
            enabled <= out@.len(),
            out@.len() <= k,
        decreases n - k,
    {
        proof {
            assert(av[k as int] == all@[k as int]@);
        }
        if same(&all[k].id, "niadd") || same(&all[k].id, "mangalivre") {
            let s = Source {
                id: all[k].id.clone(),
                name: all[k].name.clone(),
                url: all[k].url.clone(),
                language: all[k].language.clone(),
                region: all[k].region.clone(),
                enabled: all[k].enabled,
                priority: all[k].priority,
                description: crate::library::clone_opt_string(&all[k].description),
            };
            let ghost prev = source_views(out@);
            if s.enabled {
                enabled = enabled + 1;
            }
            out.push(s);
            proof {
                assert(source_views(out@) =~= prev.push(s@));
                assert(source_views(out@).drop_last() =~= prev);
            }
        }
        k = k + 1;
    }
    (out, enabled)
}

// ---------------------------------------------------------------------------
// Application folders
// ---------------------------------------------------------------------------

#[verifier::external_type_specification]
#[verifier::external_body]
pub struct ExProjectDirs(directories::ProjectDirs);

#[verifier::external_type_specification]
#[verifier::external_body]
pub struct ExPathBuf(std::path::PathBuf);

/// Calls `directories::ProjectDirs::from`. Nothing is claimed of the result: it depends on
/// the platform and the user's environment.
#[verifier::external_body]
fn project_dirs(qualifier: &str, organization: &str, application: &str) -> (r: Option<directories::ProjectDirs>) {
    directories::ProjectDirs::from(qualifier, organization, application)
}

/// Calls `ProjectDirs::data_local_dir`. Nothing is claimed of the path.
#[verifier::external_body]
fn data_local_dir(dirs: &directories::ProjectDirs) -> (r: std::path::PathBuf) {
    dirs.data_local_dir().to_path_buf()
}

/// Calls `ProjectDirs::cache_dir`. Nothing is claimed of the path.
#[verifier::external_body]
fn cache_dir(dirs: &directories::ProjectDirs) -> (r: std::path::PathBuf) {
    dirs.cache_dir().to_path_buf()
}

/// The last component of a path as text, as `Path::file_name` and `OsStr::to_str` give it.
pub uninterp spec fn path_file_name(p: std::path::PathBuf) -> Option<Seq<char>>;

/// The text of a path, as `Path::to_str` gives it.
pub uninterp spec fn path_str(p: std::path::PathBuf) -> Option<Seq<char>>;

/// A single file name that no platform reads as more than one component, a root or a
/// drive: not empty, `.` or `..`, and without `/`, `\` or `:`.
pub open spec fn simple_file_name(n: Seq<char>) -> bool {
    &&& n.len() > 0
    &&& n != "."@
    &&& n != ".."@
    &&& forall|i: int| 0 <= i < n.len() ==> #[trigger] n[i] != '/' && n[i] != '\\' && n[i] != ':'
}

/// The names joined to the application's data folder are simple file names.
proof fn lemma_simple_names()
    ensures
        simple_file_name("app.db"@),
        simple_file_name("logs"@),
        simple_file_name("library_path.txt"@),
        simple_file_name("library"@),
{
    reveal_strlit(".");
    reveal_strlit("..");
    assert(simple_file_name("app.db"@)) by {
        reveal_strlit("app.db");
    }
    assert(simple_file_name("logs"@)) by {
        reveal_strlit("logs");
    }
    assert(simple_file_name("library_path.txt"@)) by {
        reveal_strlit("library_path.txt");
    }
    assert(simple_file_name("library"@)) by {
        reveal_strlit("library");
    }
}

/// Calls `std::path::Path::join`. Claimed: joining a simple file name (see
/// `simple_file_name`) gives a path whose last component is that name, whatever the base;
/// of the rest of the path nothing is claimed, since separators depend on the platform.
#[verifier::external_body]
fn join_path(base: &std::path::PathBuf, name: &str) -> (r: std::path::PathBuf)
    ensures
        simple_file_name(name@) ==> path_file_name(r) == Some(name@),
{
    base.join(name)
}

/// The message given when the application's folders cannot be determined.
pub open spec fn no_app_dirs() -> Seq<char> {
    "Failed to determine app directories"@
}

/// The identity under which the application's folders are kept: its qualifier,
/// organization and name.
pub fn app_identity() -> (r: (&'static str, &'static str, &'static str))
    ensures
        r.0@ == "com"@,
        r.1@ == "firescan"@,
        r.2@ == "firescan"@,
{
    ("com", "firescan", "firescan")
}

/// The application's folders, under its identity (`com`, `firescan`, `firescan`).
pub fn get_app_dirs() -> (r: Result<directories::ProjectDirs, String>)
    ensures
        r matches Err(e) ==> e@ == no_app_dirs(),
{
    let (qualifier, organization, application) = app_identity();
    match project_dirs(qualifier, organization, application) {
        Some(d) => Ok(d),
        None => Err(owned("Failed to determine app directories")),
    }
}

/// The cache folder of the application.
pub fn get_cache_path() -> (r: Result<std::path::PathBuf, String>)
    ensures
        r matches Err(e) ==> e@ == no_app_dirs(),
{
    match get_app_dirs() {
        Ok(d) => Ok(cache_dir(&d)),
        Err(e) => Err(e),
    }
}

/// The database file of the application: `app.db` in its local data folder.
pub fn get_database_path() -> (r: Result<std::path::PathBuf, String>)
    ensures
        r matches Err(e) ==> e@ == no_app_dirs(),
        r matches Ok(p) ==> path_file_name(p) == Some("app.db"@),
{
    proof {
        lemma_simple_names();
    }
    match get_app_dirs() {
        Ok(d) => Ok(join_path(&data_local_dir(&d), "app.db")),
        Err(e) => Err(e),
    }
}

/// The log folder of the application: `logs` in its local data folder.
pub fn get_logs_path() -> (r: Result<std::path::PathBuf, String>)
    ensures
        r matches Err(e) ==> e@ == no_app_dirs(),
        r matches Ok(p) ==> path_file_name(p) == Some("logs"@),
{
    proof {
        lemma_simple_names();
    }
    match get_app_dirs() {
        Ok(d) => Ok(join_path(&data_local_dir(&d), "logs")),
        Err(e) => Err(e),
    }
}

/// The file that overrides the library folder: `library_path.txt` in the local data folder.
pub fn library_override_file() -> (r: Result<std::path::PathBuf, String>)
    ensures
        r matches Err(e) ==> e@ == no_app_dirs(),
        r matches Ok(p) ==> path_file_name(p) == Some("library_path.txt"@),
{
    proof {
        lemma_simple_names();
    }
    match get_app_dirs() {
        Ok(d) => Ok(join_path(&data_local_dir(&d), "library_path.txt")),
        Err(e) => Err(e),
    }
}

/// The default library folder: a fixed drive folder on Windows, else `library` in the
/// local data folder.
pub fn default_library_path(windows: bool) -> (r: Result<std::path::PathBuf, String>)
    ensures
        r matches Err(e) ==> e@ == no_app_dirs(),
        windows ==> (r matches Ok(p) ==> path_str(p) == Some("C:\\mangás"@)),
        !windows ==> (r matches Ok(p) ==> path_file_name(p) == Some("library"@)),
{
    proof {
        lemma_simple_names();
    }
    match get_app_dirs() {
        Ok(d) => {
            if windows {
                Ok(path_from("C:\\mangás"))
            } else {
                Ok(join_path(&data_local_dir(&d), "library"))
            }
        },
        Err(e) => Err(e),
    }
}

/// Calls `std::path::PathBuf::from`. Claimed: the path's text is the string given.
#[verifier::external_body]
fn path_from(s: &str) -> (r: std::path::PathBuf)
    ensures
        path_str(r) == Some(s@),
{
    std::path::PathBuf::from(s)
}

/// Prepares the database; migrations run when the application starts.
pub fn initialize_database() -> (r: Result<(), String>)
    ensures
        r is Ok,
{
    Ok(())
}

/// The text before the first line break.
pub open spec fn first_line(s: Seq<char>) -> Seq<char> {
    match crate::text::find_text(s, seq!['\n']) {
        Some(i) => s.take(i),
        None => s,
    }
}

/// The library folder that an override file names: its first line, trimmed, when that is
/// not empty.
pub open spec fn library_override_spec(contents: Seq<char>) -> Option<Seq<char>> {
    let t = trim_spec(first_line(contents));
    if t.len() > 0 { Some(t) } else { None }
}

/// The library folder that an override file names.
pub fn library_override(contents: &str) -> (r: Option<String>)
    ensures
        opt_view(r) == library_override_spec(contents@),
{
    let v = chars_of(contents);
    let nl = vec!['\n'];
    proof {
        assert(nl@ =~= seq!['\n']);
    }
    let end = match crate::text::find_first(&v, &nl) {
        Some(i) => i,
        None => v.len(),
    };
    proof {
        crate::text::lemma_find_from(v@, nl@, 0);
    }
    let (a, b) = trim_range(&v, 0, end);
    proof {
        assert(v@.subrange(0, end as int) =~= first_line(contents@));
    }
    if a < b {
        Some(string_of(&slice_vec(&v, a, b)))
    } else {
        None
    }
}

/// A migration failure that only means another run holds the database: the message
/// mentions a transaction that cannot start, is nested, or is already open.
pub open spec fn benign_migration_error_spec(msg: Seq<char>) -> bool {
    let low = lowercase_of(msg);
    contains_text(low, "cannot start a transaction"@) || contains_text(low, "nested transaction"@) || contains_text(
        low,
        "already in a transaction"@,
    )
}

/// Whether a migration failure can be ignored.
pub fn benign_migration_error(msg: &str) -> (r: bool)
    ensures
        r == benign_migration_error_spec(msg@),
{
    let low = chars_of(to_lowercase(msg).as_str());
    contains(&low, &chars_of("cannot start a transaction")) || contains(&low, &chars_of("nested transaction"))
        || contains(&low, &chars_of("already in a transaction"))
}

} // verus!

//! Settings for running the application, the downloads configuration, and the decisions about
//! when the databases must be (re)built.

use vstd::prelude::*;
use crate::text::str_eq;

verus! {

/// Settings for running the application.
#[derive(Debug)]
pub struct EweSettings {
    /// The database file
    pub database: String,
    /// The source to load from
    pub wordnet_source: Option<String>,
    /// The corpus database file
    pub corpus_database: String,
    /// The corpus YAML file to load from
    pub corpus_source: Option<String>,
    /// Path of the logo image, served at `/logo`
    pub logo: String,
    /// The project name shown in the header
    pub project_name: String,
    /// Short tagline shown on the home page, below the search box
    pub tagline: String,
    /// Introduction HTML shown on the home page, below the tagline
    pub intro: String,
    /// Footer HTML, rendered as-is beneath the main content
    pub footer: String,
    /// Path of the theme stylesheet, served at `/theme.css`
    pub theme: String,
    /// Never rebuild existing databases automatically when their sources are newer
    pub disable_auto_reload: bool,
    /// Bound on the lexicon database's in-memory page cache, in MiB
    pub lexicon_cache_mb: usize,
    /// Prefix of synset and entry ids in exports and RDF-URI lookups (e.g. `oewn`)
    pub id_prefix: String,
    /// Contact email recorded in exported WN-LMF XML
    pub contact_email: Option<String>,
    /// Source/homepage URL recorded in exported WN-LMF XML
    pub source_url: Option<String>,
}

/// The default size of the lexicon page cache, in MiB.
pub fn default_lexicon_cache_mb() -> (r: usize)
    ensures
        r == 128,
{
    128
}

/// The default logo path.
pub fn default_logo() -> (r: String)
    ensures
        r@ == "assets/gwa.svg"@,
{
    String::from_str("assets/gwa.svg")
}

/// The default corpus database file.
pub fn default_corpus_database() -> (r: String)
    ensures
        r@ == "corpus.db"@,
{
    String::from_str("corpus.db")
}

/// The default theme stylesheet path.
pub fn default_theme() -> (r: String)
    ensures
        r@ == "assets/styling/theme.css"@,
{
    String::from_str("assets/styling/theme.css")
}

/// The default project name.
pub fn default_project_name() -> (r: String)
    ensures
        r@ == "EWE Wordnet Editor"@,
{
    String::from_str("EWE Wordnet Editor")
}

/// The default tagline.
pub fn default_tagline() -> (r: String)
    ensures
        r@ == "A free, open lexical database"@,
{
    String::from_str("A free, open lexical database")
}

/// The default home-page introduction.
pub fn default_intro() -> (r: String)
    ensures
        r@ == "<p>\n        Search for a word above to see its meanings, synonyms, and how it\n        relates to other words in this Wordnet.\n    </p>"@,
{
    String::from_str("<p>\n        Search for a word above to see its meanings, synonyms, and how it\n        relates to other words in this Wordnet.\n    </p>")
}

/// The default footer.
pub fn default_footer() -> (r: String)
    ensures
        r@ == "<p class=\"footer2\">\n        This interface was created by <a href=\"http://john.mccr.ae/\">John P. McCrae</a> at the\n        <a href=\"https://dsi.nuigalway.ie/\">Data Science Institute</a>,\n        <a href=\"http://www.universityofgalway.ie\">University of Galway</a>\n        (<a href=\"http://github.com/jmccrae/ewe\">GitHub</a>). Development of this interface is supported by\n        <a href=\"https://www.sfi.ie/\">Science Foundation Ireland</a> as part of the\n        <a href=\"https://www.insight-centre.org/\">Insight Centre for Data Analytics</a>\n        and the European Union's Horizon 2020 research and innovation programme under grant agreement No 731015\n        (<a href=\"http://elex.is/\">ELEXIS</a>).\n    </p>"@,
{
    String::from_str("<p class=\"footer2\">\n        This interface was created by <a href=\"http://john.mccr.ae/\">John P. McCrae</a> at the\n        <a href=\"https://dsi.nuigalway.ie/\">Data Science Institute</a>,\n        <a href=\"http://www.universityofgalway.ie\">University of Galway</a>\n        (<a href=\"http://github.com/jmccrae/ewe\">GitHub</a>). Development of this interface is supported by\n        <a href=\"https://www.sfi.ie/\">Science Foundation Ireland</a> as part of the\n        <a href=\"https://www.insight-centre.org/\">Insight Centre for Data Analytics</a>\n        and the European Union's Horizon 2020 research and innovation programme under grant agreement No 731015\n        (<a href=\"http://elex.is/\">ELEXIS</a>).\n    </p>")
}

/// The default id prefix.
pub fn default_id_prefix() -> (r: String)
    ensures
        r@ == "oewn"@,
{
    String::from_str("oewn")
}

impl EweSettings {
    /// The settings used when no settings file is given.
    pub fn default() -> (r: Self)
        ensures
            r.database@ == "wordnet.db"@,
            r.wordnet_source is None,
            r.corpus_database@ == "corpus.db"@,
            r.corpus_source is None,
            r.logo@ == "assets/gwa.svg"@,
            r.project_name@ == "EWE Wordnet Editor"@,
            r.tagline@ == "A free, open lexical database"@,
            r.intro@ == default_intro_text(),
            r.footer@ == default_footer_text(),
            r.theme@ == "assets/styling/theme.css"@,
            !r.disable_auto_reload,
            r.lexicon_cache_mb == 128,
            r.id_prefix@ == "oewn"@,
            r.contact_email is None,
            r.source_url is None,
    {
        EweSettings {
            database: String::from_str("wordnet.db"),
            wordnet_source: None,
            corpus_database: default_corpus_database(),
            corpus_source: None,
            logo: default_logo(),
            project_name: default_project_name(),
            tagline: default_tagline(),
            intro: default_intro(),
            footer: default_footer(),
            theme: default_theme(),
            disable_auto_reload: false,
            lexicon_cache_mb: default_lexicon_cache_mb(),
            id_prefix: default_id_prefix(),
            contact_email: None,
            source_url: None,
        }
    }
}

/// The text of the default introduction.
pub open spec fn default_intro_text() -> Seq<char> {
    "<p>\n        Search for a word above to see its meanings, synonyms, and how it\n        relates to other words in this Wordnet.\n    </p>"@
}

/// The text of the default footer.
pub open spec fn default_footer_text() -> Seq<char> {
    "<p class=\"footer2\">\n        This interface was created by <a href=\"http://john.mccr.ae/\">John P. McCrae</a> at the\n        <a href=\"https://dsi.nuigalway.ie/\">Data Science Institute</a>,\n        <a href=\"http://www.universityofgalway.ie\">University of Galway</a>\n        (<a href=\"http://github.com/jmccrae/ewe\">GitHub</a>). Development of this interface is supported by\n        <a href=\"https://www.sfi.ie/\">Science Foundation Ireland</a> as part of the\n        <a href=\"https://www.insight-centre.org/\">Insight Centre for Data Analytics</a>\n        and the European Union's Horizon 2020 research and innovation programme under grant agreement No 731015\n        (<a href=\"http://elex.is/\">ELEXIS</a>).\n    </p>"@
}


// ---------------------------------------------------------------------------------------------
// Resolving the paths of a settings file against its own directory.
// ---------------------------------------------------------------------------------------------

/// The directory part of a path, as `Path::parent` computes it: `None` for a path that ends in
/// a root or prefix, and for the empty path.
pub uninterp spec fn path_parent(p: Seq<char>) -> Option<Seq<char>>;

/// `Path::parent` of `path`, spelled as a string.
#[verifier::external_body]
fn parent_dir(path: &str) -> (r: Option<String>)
    ensures
        path_parent(path@) == match r {
            Some(d) => Some(d@),
            None => None,
        },
{
    match std::path::Path::new(path).parent() {
        Some(d) => Some(d.to_string_lossy().to_string()),
        None => None,
    }
}

/// `p` joined onto `base`, as `Path::join` computes it (an absolute `p` replaces `base`).
pub uninterp spec fn path_join(base: Seq<char>, p: Seq<char>) -> Seq<char>;

/// A path that begins at the root: `/` first.
pub open spec fn rooted(p: Seq<char>) -> bool {
    p.len() > 0 && p[0] == '/'
}

/// A path separator on some platform.
pub open spec fn is_separator(c: char) -> bool {
    c == '/' || c == '\\'
}

/// A path without a Windows prefix (no drive letter with `:`, no leading `\\` or `//`): on every
/// platform, joining a rooted path onto it gives the rooted path.
pub open spec fn unprefixed(b: Seq<char>) -> bool {
    !b.contains(':') && !(b.len() >= 2 && is_separator(b[0]) && is_separator(b[1]))
}

/// `Path::join` of `p` onto `base`, spelled as a string. As `Path::join` documents, a path that
/// replaces the base (here: a rooted `p` onto an unprefixed `base`) comes back as it is.
#[verifier::external_body]
pub(crate) fn join_path(base: &str, p: &str) -> (r: String)
    ensures
        r@ == path_join(base@, p@),
        rooted(p@) && unprefixed(base@) ==> r@ == p@,
{
    std::path::Path::new(base).join(p).to_string_lossy().to_string()
}

/// A path of the settings file resolved against `base`, the settings file's directory: left
/// unchanged when that directory is empty or absent.
pub open spec fn resolve_against(base: Option<Seq<char>>, value: Seq<char>) -> Seq<char> {
    match base {
        Some(b) => if b.len() == 0 {
            value
        } else {
            path_join(b, value)
        },
        None => value,
    }
}

/// The settings file's directory, if any, has no Windows prefix.
pub open spec fn base_unprefixed(base: Option<Seq<char>>) -> bool {
    match base {
        Some(b) => unprefixed(b),
        None => true,
    }
}

/// A rooted value is kept as it is when resolved against an unprefixed directory.
pub open spec fn kept_if_rooted(base: Option<Seq<char>>, before: Seq<char>, after: Seq<char>) -> bool {
    rooted(before) && base_unprefixed(base) ==> after == before
}

fn resolve_one(base: &Option<String>, value: &String) -> (r: String)
    ensures
        r@ == resolve_against(
            match base {
                Some(b) => Some(b@),
                None => None,
            },
            value@,
        ),
        kept_if_rooted(
            match base {
                Some(b) => Some(b@),
                None => None,
            },
            value@,
            r@,
        ),
{
    match base {
        Some(b) => if b.as_str().is_empty() {
            value.clone()
        } else {
            join_path(b.as_str(), value.as_str())
        },
        None => value.clone(),
    }
}

/// Resolves every path-valued field (`database`, `wordnet_source`, `corpus_database`,
/// `corpus_source`, `logo`, `theme`) against the directory of the settings file at `path`, so
/// that a settings file keeps pointing at its sibling files wherever the process runs from.
pub fn resolve_relative_paths(settings: &mut EweSettings, path: &str)
    ensures
        final(settings).database@ == resolve_against(path_parent(path@), old(settings).database@),
        final(settings).corpus_database@ == resolve_against(path_parent(path@), old(settings).corpus_database@),
        final(settings).logo@ == resolve_against(path_parent(path@), old(settings).logo@),
        final(settings).theme@ == resolve_against(path_parent(path@), old(settings).theme@),
        kept_if_rooted(path_parent(path@), old(settings).database@, final(settings).database@),
        kept_if_rooted(path_parent(path@), old(settings).corpus_database@, final(settings).corpus_database@),
        kept_if_rooted(path_parent(path@), old(settings).logo@, final(settings).logo@),
        kept_if_rooted(path_parent(path@), old(settings).theme@, final(settings).theme@),
        old(settings).wordnet_source matches Some(v) ==> final(settings).wordnet_source matches Some(w) && kept_if_rooted(
            path_parent(path@),
            v@,
            w@,
        ),
        old(settings).corpus_source matches Some(v) ==> final(settings).corpus_source matches Some(w) && kept_if_rooted(
            path_parent(path@),
            v@,
            w@,
        ),
        match old(settings).wordnet_source {
            Some(v) => final(settings).wordnet_source matches Some(w) && w@ == resolve_against(path_parent(path@), v@),
            None => final(settings).wordnet_source is None,
        },
        match old(settings).corpus_source {
            Some(v) => final(settings).corpus_source matches Some(w) && w@ == resolve_against(path_parent(path@), v@),
            None => final(settings).corpus_source is None,
        },
        final(settings).project_name == old(settings).project_name,
        final(settings).tagline == old(settings).tagline,
        final(settings).intro == old(settings).intro,
        final(settings).footer == old(settings).footer,
        final(settings).disable_auto_reload == old(settings).disable_auto_reload,
        final(settings).lexicon_cache_mb == old(settings).lexicon_cache_mb,
        final(settings).id_prefix == old(settings).id_prefix,
        final(settings).contact_email == old(settings).contact_email,
        final(settings).source_url == old(settings).source_url,
{
    let base = parent_dir(path);
    settings.database = resolve_one(&base, &settings.database);
    settings.corpus_database = resolve_one(&base, &settings.corpus_database);
    settings.logo = resolve_one(&base, &settings.logo);
    settings.theme = resolve_one(&base, &settings.theme);
    let ws = match &settings.wordnet_source {
        Some(v) => Some(resolve_one(&base, v)),
        None => None,
    };
    settings.wordnet_source = ws;
    let cs = match &settings.corpus_source {
        Some(v) => Some(resolve_one(&base, v)),
        None => None,
    };
    settings.corpus_source = cs;
}

// ---------------------------------------------------------------------------------------------
// The downloads configuration.
// ---------------------------------------------------------------------------------------------

/// Configuration for the Downloads page: which release archives are servable and how they are
/// described.
#[derive(Debug)]
pub struct DownloadsConfig {
    /// Directory that the `filename`s below are resolved against when serving
    /// `/downloads/{filename}`.
    pub downloads_dir: String,
    /// Releases to list, in display order.
    pub release: Vec<DownloadRelease>,
}

/// One release on the Downloads page.
#[derive(Debug)]
pub struct DownloadRelease {
    /// A free-form version label, e.g. "2025".
    pub version: String,
    pub date: Option<String>,
    pub description: Option<String>,
    pub files: Vec<DownloadFile>,
}

/// One servable file of a release; only files listed here are ever served.
#[derive(Debug)]
pub struct DownloadFile {
    pub filename: String,
    pub format: Option<String>,
    pub description: Option<String>,
}

/// The default downloads directory.
pub fn default_downloads_dir() -> (r: String)
    ensures
        r@ == "downloads"@,
{
    String::from_str("downloads")
}

impl DownloadsConfig {
    /// The configuration used when no downloads file is given: no releases.
    pub fn default() -> (r: Self)
        ensures
            r.downloads_dir@ == "downloads"@,
            r.release@.len() == 0,
    {
        DownloadsConfig { downloads_dir: default_downloads_dir(), release: Vec::new() }
    }
}

// ---------------------------------------------------------------------------------------------
// Whether the databases are configured, and whether they must be rebuilt.
// ---------------------------------------------------------------------------------------------

/// The lexicon is not loaded.
#[derive(Debug)]
pub struct LexiconUnavailable;

impl LexiconUnavailable {
    /// The message of the error.
    pub fn to_string(&self) -> (r: String)
        ensures
            r@ == "Lexicon not available"@,
    {
        String::from_str("Lexicon not available")
    }
}

/// True if `settings` clearly has no Wordnet configured yet: no source to build from and no
/// database file (`database_exists` tells whether the file at `settings.database` exists).
pub fn is_unconfigured_lexicon(settings: &EweSettings, database_exists: bool) -> (r: bool)
    ensures
        r == (settings.wordnet_source is None && !database_exists),
{
    settings.wordnet_source.is_none() && !database_exists
}

/// True if `settings` clearly has no corpus configured yet: no source to build from and no
/// corpus database file (`database_exists` tells whether the file at `settings.corpus_database`
/// exists).
pub fn is_unconfigured_corpus(settings: &EweSettings, database_exists: bool) -> (r: bool)
    ensures
        r == (settings.corpus_source is None && !database_exists),
{
    settings.corpus_source.is_none() && !database_exists
}

/// What is known about a database's freshness before its source has been looked at.
#[derive(Debug, PartialEq, Eq)]
pub enum Staleness {
    /// The database must be built: it is missing.
    Stale,
    /// The database is kept: automatic reloading is disabled.
    Fresh,
    /// The database is stale if its source was modified after this time.
    NewerThan(i128),
}

/// Whether a database must be rebuilt, given its modification time (`None` when it does not
/// exist or its time cannot be read) and whether automatic reloading is disabled. Only in the
/// last case does the source's modification time decide (see `source_is_newer`).
pub fn is_stale(db_mtime: Option<i128>, disable_auto_reload: bool) -> (r: Staleness)
    ensures
        r == match db_mtime {
            None => Staleness::Stale,
            Some(t) => if disable_auto_reload {
                Staleness::Fresh
            } else {
                Staleness::NewerThan(t)
            },
        },
{
    match db_mtime {
        None => Staleness::Stale,
        Some(t) => if disable_auto_reload {
            Staleness::Fresh
        } else {
            Staleness::NewerThan(t)
        },
    }
}

impl Staleness {
    /// Settles the question once the source's modification time is known.
    pub fn source_is_newer(&self, source_mtime: i128) -> (r: bool)
        ensures
            r == match *self {
                Staleness::Stale => true,
                Staleness::Fresh => false,
                Staleness::NewerThan(t) => source_mtime > t,
            },
    {
        match self {
            Staleness::Stale => true,
            Staleness::Fresh => false,
            Staleness::NewerThan(t) => source_mtime > *t,
        }
    }
}

/// Whether some release of `config` lists a file named `filename`.
pub open spec fn lists_download(config: DownloadsConfig, filename: Seq<char>) -> bool {
    exists|r: int, f: int|
        0 <= r < config.release@.len() && 0 <= f < config.release@[r].files@.len()
            && (#[trigger] config.release@[r].files@[f]).filename@ == filename
}

impl DownloadsConfig {
    /// Whether `filename` may be served: only the files that the releases list are, so a
    /// request cannot reach anything else in the downloads directory.
    pub fn is_listed(&self, filename: &str) -> (r: bool)
        ensures
            r == lists_download(*self, filename@),
    {
        let mut r: usize = 0;
        while r < self.release.len()
            invariant
                r <= self.release@.len(),
                forall|a: int, f: int|
                    0 <= a < r && 0 <= f < self.release@[a].files@.len() ==> (#[trigger] self.release@[a].files@[f]).filename@
                        != filename@,
            decreases self.release@.len() - r,
        {
            let files = &self.release[r].files;
            let mut f: usize = 0;
            while f < files.len()
                invariant
                    r < self.release@.len(),
                    *files == self.release@[r as int].files,
                    f <= files@.len(),
                    forall|a: int, g: int|
                        0 <= a < r && 0 <= g < self.release@[a].files@.len() ==> (#[trigger] self.release@[a].files@[g]).filename@
                            != filename@,
                    forall|g: int| 0 <= g < f ==> (#[trigger] files@[g]).filename@ != filename@,
                decreases files@.len() - f,
            {
                if str_eq(files[f].filename.as_str(), filename) {
                    assert(self.release@[r as int].files@[f as int].filename@ == filename@);
                    return true;
                }
                f += 1;
            }
            r += 1;
        }
        false
    }
}

} // verus!

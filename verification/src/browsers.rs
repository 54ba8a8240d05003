//! The supported browsers: their identifier prefixes and per-platform
//! storage layout, resolution of an identifier to a browser and profile
//! selector, and the pure parts of path and profile handling.

use vstd::prelude::*;

use crate::error::BookmarksError;
use crate::json::JsonValue;
use crate::text::{
    all_digits, digits_val, is_prefix_of, names_of, sorted_names, spec_decode_selector, str_eq,
    str_starts_with, str_suffix,
};

verus! {

/// Per-platform user-data subpaths of one browser, and the identifier
/// prefix it answers to.
#[derive(Debug)]
pub struct UserDataPath {
    pub url_prefix: String,
    pub linux: String,
    pub macos: String,
    pub windows: String,
}

/// The plain values a [`UserDataPath`] carries.
pub struct UserDataPathSpec {
    pub url_prefix: Seq<char>,
    pub linux: Seq<char>,
    pub macos: Seq<char>,
    pub windows: Seq<char>,
}

impl View for UserDataPath {
    type V = UserDataPathSpec;

    open spec fn view(&self) -> UserDataPathSpec {
        UserDataPathSpec {
            url_prefix: self.url_prefix@,
            linux: self.linux@,
            macos: self.macos@,
            windows: self.windows@,
        }
    }
}

/// One supported browser: its name and storage layout.
#[derive(Debug)]
pub struct BrowserConfig {
    pub name: String,
    pub paths: UserDataPath,
}

/// The plain values a [`BrowserConfig`] carries.
pub struct BrowserConfigSpec {
    pub name: Seq<char>,
    pub paths: UserDataPathSpec,
}

impl View for BrowserConfig {
    type V = BrowserConfigSpec;

    open spec fn view(&self) -> BrowserConfigSpec {
        BrowserConfigSpec { name: self.name@, paths: self.paths@ }
    }
}

/// The supported browsers.
#[derive(Debug, Clone, Copy, PartialEq, Eq, Structural)]
pub enum Browser {
    Chrome,
    Brave,
    Edge,
    Chromium,
    Arc,
    Opera,
}

/// The platforms whose storage layout the table describes.
#[derive(Debug, Clone, Copy, PartialEq, Eq, Structural)]
pub enum Os {
    Linux,
    MacOs,
    Windows,
}

/// The static browser table: identifier prefixes are pairwise
/// non-overlapping.
pub open spec fn spec_browser_table() -> Seq<BrowserConfigSpec> {
    seq![
        BrowserConfigSpec {
            name: "chrome"@,
            paths: UserDataPathSpec {
                url_prefix: "chrome://bookmarks"@,
                linux: ".config/google-chrome"@,
                macos: "Library/Application Support/Google/Chrome"@,
                windows: "Google/Chrome/User Data"@,
            },
        },
        BrowserConfigSpec {
            name: "brave"@,
            paths: UserDataPathSpec {
                url_prefix: "brave://bookmarks"@,
                linux: ".config/BraveSoftware/Brave-Browser"@,
                macos: "Library/Application Support/BraveSoftware/Brave-Browser"@,
                windows: "BraveSoftware/Brave-Browser/User Data"@,
            },
        },
        BrowserConfigSpec {
            name: "edge"@,
            paths: UserDataPathSpec {
                url_prefix: "edge://bookmarks"@,
                linux: ".config/microsoft-edge"@,
                macos: "Library/Application Support/Microsoft Edge"@,
                windows: "Microsoft/Edge/User Data"@,
            },
        },
        BrowserConfigSpec {
            name: "chromium"@,
            paths: UserDataPathSpec {
                url_prefix: "chromium://bookmarks"@,
                linux: ".config/chromium"@,
                macos: "Library/Application Support/Chromium"@,
                windows: "Chromium/User Data"@,
            },
        },
        BrowserConfigSpec {
            name: "arc"@,
            paths: UserDataPathSpec {
                url_prefix: "arc://bookmarks"@,
                linux: ".config/Arc"@,
                macos: "Library/Application Support/Arc"@,
                windows: "Arc/User Data"@,
            },
        },
        BrowserConfigSpec {
            name: "opera"@,
            paths: UserDataPathSpec {
                url_prefix: "opera://bookmarks"@,
                linux: ".config/opera"@,
                macos: "Library/Application Support/com.operasoftware.Opera"@,
                windows: "Opera/User Data"@,
            },
        },
    ]
}

/// The views of a sequence of browser configurations.
pub open spec fn browser_views(s: Seq<BrowserConfig>) -> Seq<BrowserConfigSpec> {
    Seq::new(s.len(), |i: int| s[i]@)
}

/// One table entry, from borrowed parts.
fn mk_config(name: &str, url_prefix: &str, linux: &str, macos: &str, windows: &str) -> (r:
    BrowserConfig)
    ensures
        r@.name == name@,
        r@.paths.url_prefix == url_prefix@,
        r@.paths.linux == linux@,
        r@.paths.macos == macos@,
        r@.paths.windows == windows@,
{
    BrowserConfig {
        name: String::from_str(name),
        paths: UserDataPath {
            url_prefix: String::from_str(url_prefix),
            linux: String::from_str(linux),
            macos: String::from_str(macos),
            windows: String::from_str(windows),
        },
    }
}

/// The supported browsers, in table order.
pub fn supported_browsers() -> (r: Vec<BrowserConfig>)
    ensures
        browser_views(r@) == spec_browser_table(),
{
    let mut t: Vec<BrowserConfig> = Vec::new();
    t.push(
        mk_config(
            "chrome",
            "chrome://bookmarks",
            ".config/google-chrome",
            "Library/Application Support/Google/Chrome",
            "Google/Chrome/User Data",
        ),
    );
    t.push(
        mk_config(
            "brave",
            "brave://bookmarks",
            ".config/BraveSoftware/Brave-Browser",
            "Library/Application Support/BraveSoftware/Brave-Browser",
            "BraveSoftware/Brave-Browser/User Data",
        ),
    );
    t.push(
        mk_config(
            "edge",
            "edge://bookmarks",
            ".config/microsoft-edge",
            "Library/Application Support/Microsoft Edge",
            "Microsoft/Edge/User Data",
        ),
    );
    t.push(
        mk_config(
            "chromium",
            "chromium://bookmarks",
            ".config/chromium",
            "Library/Application Support/Chromium",
            "Chromium/User Data",
        ),
    );
    t.push(
        mk_config(
            "arc",
            "arc://bookmarks",
            ".config/Arc",
            "Library/Application Support/Arc",
            "Arc/User Data",
        ),
    );
    t.push(
        mk_config(
            "opera",
            "opera://bookmarks",
            ".config/opera",
            "Library/Application Support/com.operasoftware.Opera",
            "Opera/User Data",
        ),
    );
    proof {
        assert(browser_views(t@) =~= spec_browser_table());
    }
    t
}

/// The browser a table name denotes.
pub open spec fn spec_browser_type(name: Seq<char>) -> Option<Browser> {
    if name == "chrome"@ {
        Some(Browser::Chrome)
    } else if name == "brave"@ {
        Some(Browser::Brave)
    } else if name == "edge"@ {
        Some(Browser::Edge)
    } else if name == "chromium"@ {
        Some(Browser::Chromium)
    } else if name == "arc"@ {
        Some(Browser::Arc)
    } else if name == "opera"@ {
        Some(Browser::Opera)
    } else {
        None
    }
}

impl BrowserConfig {
    /// The browser's table name.
    pub fn name(&self) -> (r: &str)
        ensures
            r@ == self@.name,
    {
        self.name.as_str()
    }

    /// Which supported browser this configuration describes.
    pub fn browser_type(&self) -> (r: Option<Browser>)
        ensures
            r == spec_browser_type(self@.name),
    {
        let n = self.name.as_str();
        if str_eq(n, "chrome") {
            Some(Browser::Chrome)
        } else if str_eq(n, "brave") {
            Some(Browser::Brave)
        } else if str_eq(n, "edge") {
            Some(Browser::Edge)
        } else if str_eq(n, "chromium") {
            Some(Browser::Chromium)
        } else if str_eq(n, "arc") {
            Some(Browser::Arc)
        } else if str_eq(n, "opera") {
            Some(Browser::Opera)
        } else {
            None
        }
    }
}

/// A copy of a browser configuration.
fn clone_config(b: &BrowserConfig) -> (r: BrowserConfig)
    ensures
        r@ == b@,
{
    BrowserConfig {
        name: b.name.clone(),
        paths: UserDataPath {
            url_prefix: b.paths.url_prefix.clone(),
            linux: b.paths.linux.clone(),
            macos: b.paths.macos.clone(),
            windows: b.paths.windows.clone(),
        },
    }
}

/// An identifier addresses an entry when it equals the entry's prefix
/// or continues it with a `/`.
pub open spec fn spec_entry_matches(e: BrowserConfigSpec, url: Seq<char>) -> bool {
    url == e.paths.url_prefix || is_prefix_of(e.paths.url_prefix + "/"@, url)
}

/// The first table entry the identifier addresses, if any.
pub open spec fn spec_first_match(t: Seq<BrowserConfigSpec>, url: Seq<char>) -> Option<int>
    decreases t.len(),
{
    if t.len() == 0 {
        None
    } else if spec_entry_matches(t[0], url) {
        Some(0)
    } else {
        match spec_first_match(t.drop_first(), url) {
            Some(k) => Some(k + 1),
            None => None,
        }
    }
}

/// When the first `i` entries do not match, the search continues in the
/// rest.
proof fn lemma_first_match_skip(t: Seq<BrowserConfigSpec>, url: Seq<char>, i: int)
    requires
        0 <= i <= t.len(),
        forall|j: int| 0 <= j < i ==> !spec_entry_matches(#[trigger] t[j], url),
    ensures
        spec_first_match(t, url) == match spec_first_match(t.skip(i), url) {
            Some(k) => Some(k + i),
            None => None,
        },
    decreases i,
{
    if i == 0 {
        assert(t.skip(0) =~= t);
    } else {
        assert(!spec_entry_matches(t[0], url));
        assert forall|j: int| 0 <= j < i - 1 implies !spec_entry_matches(
            #[trigger] t.drop_first()[j],
            url,
        ) by {
            assert(t.drop_first()[j] == t[j + 1]);
        }
        lemma_first_match_skip(t.drop_first(), url, i - 1);
        assert(t.drop_first().skip(i - 1) =~= t.skip(i));
    }
}

/// The entry the first match names does match.
pub proof fn lemma_first_match_matches(t: Seq<BrowserConfigSpec>, url: Seq<char>)
    ensures
        spec_first_match(t, url) matches Some(k) ==> 0 <= k < t.len() && spec_entry_matches(
            t[k],
            url,
        ),
    decreases t.len(),
{
    if t.len() > 0 && !spec_entry_matches(t[0], url) {
        lemma_first_match_matches(t.drop_first(), url);
        match spec_first_match(t.drop_first(), url) {
            Some(k) => {
                assert(t.drop_first()[k] == t[k + 1]);
            },
            None => {},
        }
    }
}

/// An identifier that addresses an entry repeats the entry's prefix
/// character for character.
proof fn lemma_match_fixes_char(p: Seq<char>, url: Seq<char>, k: int)
    requires
        0 <= k < p.len(),
        url == p || is_prefix_of(p + "/"@, url),
    ensures
        url.len() >= p.len(),
        url[k] == p[k],
{
    if url != p {
        let q = p + "/"@;
        assert(url.take(q.len() as int)[k] == url[k]);
        assert(q[k] == p[k]);
    }
}

/// Law: the identifier prefixes of the table are pairwise
/// non-overlapping — an identifier addresses at most one browser, so
/// the first matching entry is the only one.
pub proof fn lemma_prefixes_non_overlapping(url: Seq<char>, i: int, j: int)
    requires
        0 <= i < spec_browser_table().len(),
        0 <= j < spec_browser_table().len(),
        i != j,
        spec_entry_matches(spec_browser_table()[i], url),
    ensures
        !spec_entry_matches(spec_browser_table()[j], url),
{
    reveal_strlit("chrome://bookmarks");
    reveal_strlit("brave://bookmarks");
    reveal_strlit("edge://bookmarks");
    reveal_strlit("chromium://bookmarks");
    reveal_strlit("arc://bookmarks");
    reveal_strlit("opera://bookmarks");
    let pi = spec_browser_table()[i].paths.url_prefix;
    let pj = spec_browser_table()[j].paths.url_prefix;
    if spec_entry_matches(spec_browser_table()[j], url) {
        // every pair of prefixes differs at the first character, except
        // the chrome and chromium pair, which differs at the sixth
        let k: int = if (i == 0 && j == 3) || (i == 3 && j == 0) {
            5
        } else {
            0
        };
        assert(k < pi.len() && k < pj.len());
        lemma_match_fixes_char(pi, url, k);
        lemma_match_fixes_char(pj, url, k);
        assert(pi[k] != pj[k]);
    }
}

/// Tests whether the identifier addresses this entry.
fn entry_matches(b: &BrowserConfig, url: &str) -> (r: bool)
    ensures
        r == spec_entry_matches(b@, url@),
{
    if str_eq(url, b.paths.url_prefix.as_str()) {
        return true;
    }
    let mut p = b.paths.url_prefix.clone();
    p.append("/");
    str_starts_with(url, p.as_str())
}

/// The browser an identifier addresses, by its prefix.
pub fn get_browser_from_url(url: &str) -> (r: Option<BrowserConfig>)
    ensures
        match r {
            Some(b) => spec_first_match(spec_browser_table(), url@) matches Some(k) && b@
                == spec_browser_table()[k],
            None => spec_first_match(spec_browser_table(), url@) is None,
        },
{
    let table = supported_browsers();
    let ghost t: Seq<BrowserConfigSpec> = spec_browser_table();
    let n = table.len();
    let mut i: usize = 0;
    while i < n
        invariant
            i <= n,
            n == table@.len(),
            t == spec_browser_table(),
            browser_views(table@) == t,
            forall|j: int| 0 <= j < i ==> !spec_entry_matches(#[trigger] t[j], url@),
        decreases n - i,
    {
        proof {
            assert(t[i as int] == table@[i as int]@);
        }
        if entry_matches(&table[i], url) {
            proof {
                lemma_first_match_skip(t, url@, i as int);
                assert(t.skip(i as int)[0] == t[i as int]);
                assert(spec_first_match(t.skip(i as int), url@) == Some(0int));
            }
            return Some(clone_config(&table[i]));
        }
        i = i + 1;
    }
    proof {
        lemma_first_match_skip(t, url@, n as int);
        assert(t.skip(n as int) =~= Seq::<BrowserConfigSpec>::empty());
    }
    None
}

/// The table position of each browser.
pub open spec fn spec_table_index(b: Browser) -> int {
    match b {
        Browser::Chrome => 0,
        Browser::Brave => 1,
        Browser::Edge => 2,
        Browser::Chromium => 3,
        Browser::Arc => 4,
        Browser::Opera => 5,
    }
}

/// The configuration of one browser.
pub fn config_for(b: Browser) -> (r: BrowserConfig)
    ensures
        r@ == spec_browser_table()[spec_table_index(b)],
{
    let table = supported_browsers();
    let i: usize = match b {
        Browser::Chrome => 0,
        Browser::Brave => 1,
        Browser::Edge => 2,
        Browser::Chromium => 3,
        Browser::Arc => 4,
        Browser::Opera => 5,
    };
    proof {
        assert(browser_views(table@).len() == spec_browser_table().len());
        assert(spec_browser_table().len() == 6);
        assert(browser_views(table@)[i as int] == table@[i as int]@);
    }
    clone_config(&table[i])
}

/// The profile selector carried by an identifier: all profiles, a
/// 1-based numeric index, or a profile name.
#[derive(Debug, PartialEq)]
pub enum Selector {
    All,
    Index(u32),
    Name(String),
}

/// The plain values a [`Selector`] carries.
pub enum SelectorSpec {
    All,
    Index(u32),
    Name(Seq<char>),
}

impl View for Selector {
    type V = SelectorSpec;

    open spec fn view(&self) -> SelectorSpec {
        match self {
            Selector::All => SelectorSpec::All,
            Selector::Index(i) => SelectorSpec::Index(*i),
            Selector::Name(n) => SelectorSpec::Name(n@),
        }
    }
}

/// The selector an identifier carries past a matching prefix: nothing
/// or an empty suffix selects all profiles, an all-digit suffix in
/// range is a numeric index, and anything else is a profile name with
/// escaped spaces restored.
pub open spec fn spec_selector_of(url: Seq<char>, prefix: Seq<char>) -> SelectorSpec {
    if url == prefix {
        SelectorSpec::All
    } else {
        let rest = url.skip(prefix.len() as int + 1);
        if rest.len() == 0 {
            SelectorSpec::All
        } else if all_digits(rest) && digits_val(rest) <= u32::MAX {
            SelectorSpec::Index(digits_val(rest) as u32)
        } else {
            SelectorSpec::Name(spec_decode_selector(rest))
        }
    }
}

/// Reads the selector out of an identifier that addresses `prefix`.
fn selector_of(url: &str, prefix: &str) -> (r: Selector)
    requires
        url@ == prefix@ || is_prefix_of(prefix@ + "/"@, url@),
    ensures
        r@ == spec_selector_of(url@, prefix@),
{
    if str_eq(url, prefix) {
        return Selector::All;
    }
    let p_len = prefix.unicode_len();
    let u_len = url.unicode_len();
    proof {
        reveal_strlit("/");
        assert((prefix@ + "/"@).len() == prefix@.len() + 1);
        assert(p_len + 1 <= u_len);
    }
    let rest = str_suffix(url, p_len + 1);
    match crate::text::parse_index(rest.as_str()) {
        Some(i) => Selector::Index(i),
        None => {
            if rest.as_str().unicode_len() == 0 {
                Selector::All
            } else {
                Selector::Name(crate::text::decode_selector(rest.as_str()))
            }
        },
    }
}

/// The identifier prefixes of the table, in order.
pub open spec fn spec_table_prefixes() -> Seq<Seq<char>> {
    Seq::new(spec_browser_table().len(), |i: int| spec_browser_table()[i].paths.url_prefix)
}

/// The identifier prefixes of the supported browsers.
pub fn supported_prefixes() -> (r: Vec<String>)
    ensures
        names_of(r@) == spec_table_prefixes(),
{
    let table = supported_browsers();
    let mut out: Vec<String> = Vec::new();
    let n = table.len();
    let mut i: usize = 0;
    while i < n
        invariant
            i <= n,
            n == table@.len(),
            browser_views(table@) == spec_browser_table(),
            out@.len() == i,
            forall|j: int|
                0 <= j < i ==> #[trigger] out@[j]@ == spec_browser_table()[j].paths.url_prefix,
        decreases n - i,
    {
        proof {
            assert(table@[i as int]@ == spec_browser_table()[i as int]);
        }
        out.push(table[i].paths.url_prefix.clone());
        i = i + 1;
    }
    proof {
        assert(names_of(out@) =~= spec_table_prefixes());
    }
    out
}

/// Resolves an identifier to the browser it addresses and the profile
/// selector it carries; an identifier with no matching prefix is
/// unsupported, and the error lists every known prefix.
pub fn resolve_identifier(url: &str) -> (r: Result<(BrowserConfig, Selector), BookmarksError>)
    ensures
        match spec_first_match(spec_browser_table(), url@) {
            Some(k) => r matches Ok(p) && p.0@ == spec_browser_table()[k] && p.1@
                == spec_selector_of(url@, spec_browser_table()[k].paths.url_prefix),
            None => r matches Err(e) && (e
                matches BookmarksError::UnsupportedIdentifier { url: u, prefixes } && u@ == url@
                && names_of(prefixes@) == spec_table_prefixes()),
        },
{
    match get_browser_from_url(url) {
        Some(b) => {
            proof {
                lemma_first_match_matches(spec_browser_table(), url@);
            }
            let sel = selector_of(url, b.paths.url_prefix.as_str());
            Ok((b, sel))
        },
        None => Err(
            BookmarksError::UnsupportedIdentifier {
                url: String::from_str(url),
                prefixes: supported_prefixes(),
            },
        ),
    }
}

/// The separator a platform's paths are joined with.
pub open spec fn spec_os_sep(os: Os) -> char {
    match os {
        Os::Windows => '\\',
        _ => '/',
    }
}

/// The environment variable a platform's user-data root comes from.
pub open spec fn spec_env_var(os: Os) -> Seq<char> {
    match os {
        Os::Windows => "LOCALAPPDATA"@,
        _ => "HOME"@,
    }
}

/// The user-data subpath of an entry on a platform.
pub open spec fn spec_subpath(p: UserDataPathSpec, os: Os) -> Seq<char> {
    match os {
        Os::Linux => p.linux,
        Os::MacOs => p.macos,
        Os::Windows => p.windows,
    }
}

/// `base`, one separator, then `component`.
pub open spec fn spec_join(base: Seq<char>, os: Os, component: Seq<char>) -> Seq<char> {
    base + seq![spec_os_sep(os)] + component
}

/// Joins one path component onto a base path.
pub fn join_path(base: &str, os: Os, component: &str) -> (r: String)
    ensures
        r@ == spec_join(base@, os, component@),
{
    let mut out = String::from_str(base);
    match os {
        Os::Windows => {
            out.append("\\");
            proof {
                reveal_strlit("\\");
                assert("\\"@ =~= seq![spec_os_sep(os)]);
            }
        },
        _ => {
            out.append("/");
            proof {
                reveal_strlit("/");
                assert("/"@ =~= seq![spec_os_sep(os)]);
            }
        },
    }
    out.append(component);
    proof {
        assert(out@ =~= spec_join(base@, os, component@));
    }
    out
}

/// The variable name the platform's user-data root comes from.
pub fn env_var_name(os: Os) -> (r: String)
    ensures
        r@ == spec_env_var(os),
{
    match os {
        Os::Windows => String::from_str("LOCALAPPDATA"),
        _ => String::from_str("HOME"),
    }
}

/// What the platform resolver returns: the environment value joined
/// with the browser's subpath, or the missing variable named.
pub open spec fn spec_user_data_path(
    e: BrowserConfigSpec,
    os: Os,
    base: Option<Seq<char>>,
    r: Result<String, BookmarksError>,
) -> bool {
    match base {
        Some(b) => r matches Ok(p) && p@ == spec_join(b, os, spec_subpath(e.paths, os)),
        None => r matches Err(err) && (err matches BookmarksError::MissingEnvironment { variable }
            && variable@ == spec_env_var(os)),
    }
}

/// A directory entry of a user-data root, as the profile listing needs
/// it: its name, whether it is a directory, and whether it holds a
/// `Bookmarks` file.
pub struct DirEntryInfo {
    pub name: String,
    pub is_dir: bool,
    pub has_bookmarks_file: bool,
}

/// The plain values a [`DirEntryInfo`] carries.
pub struct DirEntrySpec {
    pub name: Seq<char>,
    pub is_dir: bool,
    pub has_bookmarks_file: bool,
}

impl View for DirEntryInfo {
    type V = DirEntrySpec;

    open spec fn view(&self) -> DirEntrySpec {
        DirEntrySpec {
            name: self.name@,
            is_dir: self.is_dir,
            has_bookmarks_file: self.has_bookmarks_file,
        }
    }
}

/// The views of directory entries.
pub open spec fn entry_views(s: Seq<DirEntryInfo>) -> Seq<DirEntrySpec> {
    Seq::new(s.len(), |i: int| s[i]@)
}

/// Whether one directory counts as a profile: it must be a directory
/// named `Default` or starting with `Profile`; outside the Arc layout a
/// directory holding a `Bookmarks` file counts too.
pub open spec fn spec_profile_keep(e: DirEntrySpec, arc_layout: bool) -> bool {
    e.is_dir && (e.name == "Default"@ || is_prefix_of("Profile "@, e.name) || (!arc_layout && (
    is_prefix_of("Profile"@, e.name) || e.has_bookmarks_file)))
}

/// The names kept from a listing, in order.
pub open spec fn spec_kept_profiles(entries: Seq<DirEntrySpec>, arc_layout: bool) -> Seq<Seq<char>>
    decreases entries.len(),
{
    if entries.len() == 0 {
        Seq::empty()
    } else {
        spec_kept_profiles(entries.drop_last(), arc_layout) + if spec_profile_keep(
            entries.last(),
            arc_layout,
        ) {
            seq![entries.last().name]
        } else {
            Seq::empty()
        }
    }
}

/// The profiles of a listing: the kept names, or `Default` alone when
/// nothing is kept, so a minimal installation still resolves.
pub open spec fn spec_profiles_from(entries: Seq<DirEntrySpec>, arc_layout: bool) -> Seq<
    Seq<char>,
> {
    let kept = spec_kept_profiles(entries, arc_layout);
    if kept.len() == 0 {
        seq!["Default"@]
    } else {
        kept
    }
}

impl BrowserConfig {
    /// The user-data root for a platform, from the value of its
    /// environment variable.
    pub fn platform_user_data_path(&self, os: Os, base: Option<&str>) -> (r: Result<
        String,
        BookmarksError,
    >)
        ensures
            spec_user_data_path(self@, os, crate::specialized::arc::opt_view(base), r),
    {
        match base {
            Some(b) => {
                let sub = match os {
                    Os::Linux => self.paths.linux.as_str(),
                    Os::MacOs => self.paths.macos.as_str(),
                    Os::Windows => self.paths.windows.as_str(),
                };
                Ok(join_path(b, os, sub))
            },
            None => Err(BookmarksError::MissingEnvironment { variable: env_var_name(os) }),
        }
    }

    /// The directory a profile would occupy under the user-data root.
    pub fn profile_dir(&self, os: Os, base: &str, profile_name: Option<&str>) -> (r: String)
        ensures
            r@ == spec_join(
                spec_join(base@, os, spec_subpath(self@.paths, os)),
                os,
                match profile_name {
                    Some(p) => p@,
                    None => "Default"@,
                },
            ),
    {
        let root = match self.platform_user_data_path(os, Some(base)) {
            Ok(p) => p,
            Err(_) => String::new(),
        };
        match profile_name {
            Some(p) => join_path(root.as_str(), os, p),
            None => join_path(root.as_str(), os, "Default"),
        }
    }

    /// The profile's directory when it exists on disk; the caller
    /// reports whether it does.
    pub fn profile_path(&self, os: Os, base: &str, profile_name: Option<&str>, dir_exists: bool)
        -> (r: Result<String, BookmarksError>)
        ensures
            dir_exists ==> (r matches Ok(p) && p@ == spec_join(
                spec_join(base@, os, spec_subpath(self@.paths, os)),
                os,
                match profile_name {
                    Some(p) => p@,
                    None => "Default"@,
                },
            )),
            !dir_exists ==> (r matches Err(e) && (e
                matches BookmarksError::ProfileNotFound { profile, available } && profile@ == (
            match profile_name {
                Some(p) => p@,
                None => "Default"@,
            }) && available@.len() == 0)),
    {
        if dir_exists {
            Ok(self.profile_dir(os, base, profile_name))
        } else {
            let profile = match profile_name {
                Some(p) => String::from_str(p),
                None => String::from_str("Default"),
            };
            Err(BookmarksError::ProfileNotFound { profile, available: Vec::new() })
        }
    }

    /// The file bookmarks are read from: Arc keeps one sidebar file at
    /// its user-data root; every other browser keeps a `Bookmarks` file
    /// in the profile directory, which must exist.
    pub fn bookmarks_path(&self, os: Os, base: &str, profile_name: Option<&str>, dir_exists: bool)
        -> (r: Result<String, BookmarksError>)
        ensures
            ({
                let root = spec_join(base@, os, spec_subpath(self@.paths, os));
                if spec_browser_type(self@.name) == Some(Browser::Arc) {
                    r matches Ok(p) && p@ == spec_join(root, os, "StorableSidebar.json"@)
                } else {
                    if dir_exists {
                        r matches Ok(p) && p@ == spec_join(
                            spec_join(
                                root,
                                os,
                                match profile_name {
                                    Some(q) => q@,
                                    None => "Default"@,
                                },
                            ),
                            os,
                            "Bookmarks"@,
                        )
                    } else {
                        r matches Err(e) && e is ProfileNotFound
                    }
                }
            }),
    {
        let is_arc = match self.browser_type() {
            Some(Browser::Arc) => true,
            _ => false,
        };
        if is_arc {
            let root = match self.platform_user_data_path(os, Some(base)) {
                Ok(p) => p,
                Err(_) => String::new(),
            };
            Ok(join_path(root.as_str(), os, "StorableSidebar.json"))
        } else {
            match self.profile_path(os, base, profile_name, dir_exists) {
                Ok(p) => Ok(join_path(p.as_str(), os, "Bookmarks")),
                Err(e) => Err(e),
            }
        }
    }

    /// Selects the profiles of a user-data root from its directory
    /// listing.
    pub fn select_profiles(&self, entries: &Vec<DirEntryInfo>) -> (r: Vec<String>)
        ensures
            names_of(r@) == spec_profiles_from(
                entry_views(entries@),
                spec_browser_type(self@.name) == Some(Browser::Arc),
            ),
    {
        let arc_layout = match self.browser_type() {
            Some(Browser::Arc) => true,
            _ => false,
        };
        let ghost ev: Seq<DirEntrySpec> = entry_views(entries@);
        let mut out: Vec<String> = Vec::new();
        let n = entries.len();
        let mut i: usize = 0;
        proof {
            assert(ev.take(0) =~= Seq::<DirEntrySpec>::empty());
            assert(names_of(out@) =~= spec_kept_profiles(ev.take(0), arc_layout));
        }
        while i < n
            invariant
                i <= n,
                n == entries@.len(),
                entry_views(entries@) == ev,
                names_of(out@) == spec_kept_profiles(ev.take(i as int), arc_layout),
            decreases n - i,
        {
            proof {
                assert(ev.take(i + 1).drop_last() =~= ev.take(i as int));
                assert(ev.take(i + 1).last() == ev[i as int]);
                assert(ev[i as int] == entries@[i as int]@);
            }
            let e = &entries[i];
            let keep = e.is_dir && (str_eq(e.name.as_str(), "Default") || str_starts_with(
                e.name.as_str(),
                "Profile ",
            ) || (!arc_layout && (str_starts_with(e.name.as_str(), "Profile")
                || e.has_bookmarks_file)));
            let ghost out_pre: Seq<String> = out@;
            if keep {
                out.push(e.name.clone());
                proof {
                    assert(names_of(out@) =~= names_of(out_pre).push(entries@[i as int].name@));
                }
            }
            proof {
                assert(names_of(out@) =~= spec_kept_profiles(ev.take(i + 1), arc_layout));
            }
            i = i + 1;
        }
        proof {
            assert(ev.take(n as int) =~= ev);
        }
        if out.len() == 0 {
            out.push(String::from_str("Default"));
            proof {
                assert(names_of(out@) =~= seq!["Default"@]);
            }
        }
        out
    }
}

/// Resolves a selector against the known profiles: all profiles, a
/// named profile, or a numeric index over the sorted names; an index
/// outside the range fails, listing the known profiles.
pub fn profile_for_selector(profiles: &Vec<String>, selector: &Selector) -> (r: Result<
    Option<String>,
    BookmarksError,
>)
    ensures
        match selector@ {
            SelectorSpec::All => r matches Ok(o) && o is None,
            SelectorSpec::Name(nm) => r matches Ok(o) && o matches Some(p) && p@ == nm,
            SelectorSpec::Index(i) => if i == 0 {
                r matches Ok(o) && o is None
            } else if 1 <= i <= profiles@.len() {
                r matches Ok(o) && o matches Some(p) && p@ == sorted_names(
                    names_of(profiles@),
                )[i - 1]
            } else {
                r matches Err(e) && (e
                    matches BookmarksError::ProfileIndexOutOfRange { index, available } && index
                    == i && names_of(available@) == names_of(profiles@))
            },
        },
{
    match selector {
        Selector::All => Ok(None),
        Selector::Name(nm) => Ok(Some(nm.clone())),
        Selector::Index(i) => {
            if *i == 0 {
                return Ok(None);
            }
            match crate::utils::profile::map_numeric_profile_to_name(profiles, *i) {
                Some(name) => Ok(Some(name)),
                None => {
                    let mut available: Vec<String> = Vec::new();
                    let n = profiles.len();
                    let mut k: usize = 0;
                    while k < n
                        invariant
                            k <= n,
                            n == profiles@.len(),
                            available@.len() == k,
                            forall|j: int|
                                0 <= j < k ==> #[trigger] available@[j]@ == profiles@[j]@,
                        decreases n - k,
                    {
                        available.push(profiles[k].clone());
                        k = k + 1;
                    }
                    proof {
                        assert(names_of(available@) =~= names_of(profiles@));
                    }
                    Err(BookmarksError::ProfileIndexOutOfRange { index: *i, available })
                },
            }
        },
    }
}

/// Index of the last path separator in `s`, if any.
pub open spec fn spec_last_sep(s: Seq<char>) -> Option<int>
    decreases s.len(),
{
    if s.len() == 0 {
        None
    } else if s.last() == '/' || s.last() == '\\' {
        Some(s.len() - 1)
    } else {
        spec_last_sep(s.drop_last())
    }
}

/// The part of a path after its last separator.
pub open spec fn spec_base_name(s: Seq<char>) -> Seq<char> {
    match spec_last_sep(s) {
        Some(k) => s.skip(k + 1),
        None => s,
    }
}

/// The base name of a path.
pub fn file_base_name(path: &str) -> (r: String)
    ensures
        r@ == spec_base_name(path@),
{
    let len = path.unicode_len();
    let mut i: usize = 0;
    let mut cut: usize = 0;
    while i < len
        invariant
            i <= len,
            len == path@.len(),
            cut <= i,
            spec_last_sep(path@.take(i as int)) == (if cut == 0 {
                Option::<int>::None
            } else {
                Option::<int>::Some(cut - 1)
            }),
        decreases len - i,
    {
        proof {
            assert(path@.take(i + 1).drop_last() =~= path@.take(i as int));
            assert(path@.take(i + 1).last() == path@[i as int]);
        }
        let c = path.get_char(i);
        if c == '/' || c == '\\' {
            cut = i + 1;
        }
        i = i + 1;
    }
    proof {
        assert(path@.take(len as int) =~= path@);
        if cut == 0 {
            assert(path@.skip(0) =~= path@);
        }
    }
    str_suffix(path, cut)
}

/// Turns a parsed bookmarks document into the canonical tree: the Arc
/// sidebar file is extracted and rebuilt, anything else passes through
/// unchanged.
pub fn convert_bookmarks_doc(path: &str, doc: JsonValue, profile: Option<&str>) -> (r: Result<
    JsonValue,
    BookmarksError,
>)
    ensures
        ({
            if spec_base_name(path@) == "StorableSidebar.json"@ {
                match r {
                    Ok(tree) => exists|now: u64, bks: Seq<crate::specialized::arc::BookmarkSpec>|
                        crate::specialized::arc::profile_outcome_ok(
                            doc,
                            crate::specialized::arc::opt_view(profile),
                            bks,
                        ) && crate::specialized::arc::spec_is_chromium_tree(tree, bks, now),
                    Err(e) => crate::specialized::arc::profile_outcome_err(
                        doc,
                        crate::specialized::arc::opt_view(profile),
                        e,
                    ),
                }
            } else {
                r matches Ok(d) && d == doc
            }
        }),
{
    let base = file_base_name(path);
    if str_eq(base.as_str(), "StorableSidebar.json") {
        crate::specialized::arc::convert_arc_bookmarks_to_chromium(&doc, profile)
    } else {
        Ok(doc)
    }
}

/// Turns a parsed bookmarks document into the canonical tree, selecting
/// an Arc profile numerically.
pub fn convert_bookmarks_doc_numeric(path: &str, doc: JsonValue, profile_index: Option<u32>) -> (r:
    Result<JsonValue, BookmarksError>)
    ensures
        ({
            if spec_base_name(path@) == "StorableSidebar.json"@ {
                match r {
                    Ok(tree) => exists|now: u64, bks: Seq<crate::specialized::arc::BookmarkSpec>|
                        crate::specialized::arc::numeric_outcome_ok(doc, profile_index, bks)
                            && crate::specialized::arc::spec_is_chromium_tree(tree, bks, now),
                    Err(e) => crate::specialized::arc::numeric_outcome_err(doc, profile_index, e),
                }
            } else {
                r matches Ok(d) && d == doc
            }
        }),
{
    let base = file_base_name(path);
    if str_eq(base.as_str(), "StorableSidebar.json") {
        crate::specialized::arc::convert_arc_bookmarks_to_chromium_numeric(&doc, profile_index)
    } else {
        Ok(doc)
    }
}

} // verus!

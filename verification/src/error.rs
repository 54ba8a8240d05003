//! The errors this crate reports. Every variant carries what a caller
//! needs to describe the failure: the identifier, path or alternatives
//! involved.

use vstd::prelude::*;

use crate::num::{dec_rep, u64_to_dec};
use crate::text::names_of;

verus! {

/// A failure of resolution, reading or extraction.
#[derive(Debug)]
pub enum BookmarksError {
    /// The identifier matches no supported browser prefix.
    UnsupportedIdentifier { url: String, prefixes: Vec<String> },
    /// The environment variable the platform path needs is unset.
    MissingEnvironment { variable: String },
    /// The build targets no supported operating system.
    UnsupportedPlatform,
    /// The requested profile does not exist.
    ProfileNotFound { profile: String, available: Vec<String> },
    /// No profile of the browser could be read.
    NoProfilesFound { browser: String },
    /// The bookmarks path does not name a regular file.
    FileNotFound { path: String },
    /// The bookmarks file does not hold well-formed JSON.
    MalformedJson { path: String },
    /// Neither profile containers nor a pinned container could be
    /// discovered in the sidebar data.
    NoContainerDiscoverable,
    /// A numeric profile selector is outside the known profiles.
    ProfileIndexOutOfRange { index: u32, available: Vec<String> },
}

/// Names joined by a comma and a space.
pub open spec fn spec_join_comma(names: Seq<Seq<char>>) -> Seq<char>
    decreases names.len(),
{
    if names.len() == 0 {
        Seq::empty()
    } else if names.len() == 1 {
        names[0]
    } else {
        spec_join_comma(names.drop_last()) + ", "@ + names.last()
    }
}

/// Joins names with a comma and a space.
pub fn join_comma(names: &Vec<String>) -> (r: String)
    ensures
        r@ == spec_join_comma(names_of(names@)),
{
    let ghost vn: Seq<Seq<char>> = names_of(names@);
    let mut out = String::new();
    let n = names.len();
    let mut i: usize = 0;
    proof {
        assert(vn.take(0) =~= Seq::<Seq<char>>::empty());
        assert(out@ =~= spec_join_comma(vn.take(0)));
    }
    while i < n
        invariant
            i <= n,
            n == names@.len(),
            names_of(names@) == vn,
            out@ == spec_join_comma(vn.take(i as int)),
        decreases n - i,
    {
        proof {
            assert(vn.take(i + 1).drop_last() =~= vn.take(i as int));
            assert(vn.take(i + 1).last() == vn[i as int]);
            assert(vn[i as int] == names@[i as int]@);
        }
        if i == 0 {
            out.append(names[i].as_str());
            proof {
                assert(out@ =~= spec_join_comma(vn.take(1)));
            }
        } else {
            out.append(", ");
            out.append(names[i].as_str());
        }
        i = i + 1;
    }
    proof {
        assert(vn.take(n as int) =~= vn);
    }
    out
}

/// The message describing an error.
pub open spec fn spec_message(e: BookmarksError) -> Seq<char> {
    match e {
        BookmarksError::UnsupportedIdentifier { url, prefixes } => "Unsupported URL: "@ + url@
            + ". Supported prefixes: "@ + spec_join_comma(names_of(prefixes@)),
        BookmarksError::MissingEnvironment { variable } => variable@
            + " environment variable must be set"@,
        BookmarksError::UnsupportedPlatform => "Unsupported operating system"@,
        BookmarksError::ProfileNotFound { profile, available } => "Profile '"@ + profile@
            + "' not found. Available profiles: "@ + spec_join_comma(names_of(available@)),
        BookmarksError::NoProfilesFound { browser } => "No profiles found for browser: "@
            + browser@,
        BookmarksError::FileNotFound { path } => "Bookmarks file not found at "@ + path@,
        BookmarksError::MalformedJson { path } => "Failed to parse bookmarks JSON from "@ + path@,
        BookmarksError::NoContainerDiscoverable =>
            "Could not find any profile containers or pinned bookmarks in Arc data"@,
        BookmarksError::ProfileIndexOutOfRange { index, available } => "Profile index "@ + dec_rep(
            index as int,
        ) + " not found. Available profiles: "@ + spec_join_comma(names_of(available@)),
    }
}

impl BookmarksError {
    /// Describes this error.
    pub fn message(&self) -> (r: String)
        ensures
            r@ == spec_message(*self),
    {
        match self {
            BookmarksError::UnsupportedIdentifier { url, prefixes } => {
                let mut out = String::from_str("Unsupported URL: ");
                out.append(url.as_str());
                out.append(". Supported prefixes: ");
                let joined = join_comma(prefixes);
                out.append(joined.as_str());
                out
            },
            BookmarksError::MissingEnvironment { variable } => {
                let mut out = variable.clone();
                out.append(" environment variable must be set");
                out
            },
            BookmarksError::UnsupportedPlatform => String::from_str(
                "Unsupported operating system",
            ),
            BookmarksError::ProfileNotFound { profile, available } => {
                let mut out = String::from_str("Profile '");
                out.append(profile.as_str());
                out.append("' not found. Available profiles: ");
                let joined = join_comma(available);
                out.append(joined.as_str());
                out
            },
            BookmarksError::NoProfilesFound { browser } => {
                let mut out = String::from_str("No profiles found for browser: ");
                out.append(browser.as_str());
                out
            },
            BookmarksError::FileNotFound { path } => {
                let mut out = String::from_str("Bookmarks file not found at ");
                out.append(path.as_str());
                out
            },
            BookmarksError::MalformedJson { path } => {
                let mut out = String::from_str("Failed to parse bookmarks JSON from ");
                out.append(path.as_str());
                out
            },
            BookmarksError::NoContainerDiscoverable => String::from_str(
                "Could not find any profile containers or pinned bookmarks in Arc data",
            ),
            BookmarksError::ProfileIndexOutOfRange { index, available } => {
                let mut out = String::from_str("Profile index ");
                let num = u64_to_dec(*index as u64);
                out.append(num.as_str());
                out.append(" not found. Available profiles: ");
                let joined = join_comma(available);
                out.append(joined.as_str());
                out
            },
        }
    }
}

} // verus!

//! Chromium's bookmark storage locations.

use vstd::prelude::*;

use crate::browsers::{
    config_for, spec_browser_table, spec_join, spec_subpath, spec_table_index, Browser, Os,
};

verus! {

/// The directory of one Chromium profile under the user's home (or local
/// app data) directory.
pub fn find_profile_path(os: Os, base: &str, profile_name: Option<&str>) -> (r: String)
    ensures
        r@ == spec_join(
            spec_join(
                base@,
                os,
                spec_subpath(spec_browser_table()[spec_table_index(Browser::Chromium)].paths, os),
            ),
            os,
            match profile_name {
                Some(p) => p@,
                None => "Default"@,
            },
        ),
{
    let config = config_for(Browser::Chromium);
    config.profile_dir(os, base, profile_name)
}

/// The `Bookmarks` file of one Chromium profile.
pub fn find_bookmarks_path(os: Os, base: &str, profile_name: Option<&str>) -> (r: String)
    ensures
        r@ == spec_join(
            spec_join(
                spec_join(
                    base@,
                    os,
                    spec_subpath(spec_browser_table()[spec_table_index(Browser::Chromium)].paths, os),
                ),
                os,
                match profile_name {
                    Some(p) => p@,
                    None => "Default"@,
                },
            ),
            os,
            "Bookmarks"@,
        ),
{
    let dir = find_profile_path(os, base, profile_name);
    crate::browsers::join_path(dir.as_str(), os, "Bookmarks")
}

} // verus!

//! Release metadata: platforms, asset classification, and changelog
//! categories for the application's own release feed.

use vstd::prelude::*;

use crate::commit::find_char;
use crate::date::Date;
use crate::digits::str_eq;
use crate::version::Version;

verus! {

/// One release asset's download counts, keyed by file name.
#[derive(Debug, Clone)]
pub struct GithubAssetInfo {
    pub name: String,
    pub downloads: Vec<(String, u32)>,
    pub size: u32,
}

/// One published release with its assets.
#[derive(Debug, Clone)]
pub struct GithubReleaseInfo {
    pub version: Version,
    pub date: Date,
    pub time: String,
    pub assets: Vec<GithubAssetInfo>,
}

#[derive(Debug, Clone, Copy, PartialEq, Eq, Structural)]
pub enum ObsidianPlatform {
    Desktop,
    Mobile,
    Publish,
}

/// One release of the application itself.
#[derive(Debug, Clone)]
pub struct ObsidianReleaseInfo {
    pub version: Version,
    pub platform: ObsidianPlatform,
    pub insider: bool,
    pub date: Date,
    pub info: String,
    pub major_release: bool,
}

#[derive(Debug, Clone, Copy, PartialEq, Eq, Structural, Hash)]
pub enum OS {
    Windows,
    MacOS,
    Linux,
}

pub open spec fn spec_os_name(os: OS) -> Seq<char> {
    match os {
        OS::Windows => "Windows"@,
        OS::MacOS => "macOS"@,
        OS::Linux => "Linux"@,
    }
}

/// Whether the string ends with the suffix.
pub open spec fn spec_ends_with(s: Seq<char>, suffix: Seq<char>) -> bool {
    s.len() >= suffix.len() && s.subrange(s.len() - suffix.len(), s.len() as int) == suffix
}

/// Suffix test on strings.
pub fn str_ends_with(s: &str, suffix: &str) -> (r: bool)
    ensures
        r == spec_ends_with(s@, suffix@),
{
    let slen = s.unicode_len();
    let xlen = suffix.unicode_len();
    if slen < xlen {
        return false;
    }
    let start = slen - xlen;
    let mut i: usize = 0;
    while i < xlen
        invariant
            i <= xlen,
            slen == s@.len(),
            xlen == suffix@.len(),
            start == slen - xlen,
            forall|j: int| 0 <= j < i ==> s@[start + j] == suffix@[j],
        decreases xlen - i,
    {
        if s.get_char(start + i) != suffix.get_char(i) {
            proof {
                let tail = s@.subrange(s@.len() - suffix@.len(), s@.len() as int);
                assert(tail[i as int] == s@[start + i]);
            }
            return false;
        }
        i = i + 1;
    }
    proof {
        assert(s@.subrange(s@.len() - suffix@.len(), s@.len() as int) =~= suffix@);
    }
    true
}

/// Which operating system an asset file serves, by its suffix; the
/// updater's own archive maps to none.
pub open spec fn spec_os_of_asset(name: Seq<char>) -> Option<OS> {
    if spec_ends_with(name, ".asar.gz"@) {
        Option::None
    } else if spec_ends_with(name, ".dmg"@) {
        Option::Some(OS::MacOS)
    } else if spec_ends_with(name, ".exe"@) {
        Option::Some(OS::Windows)
    } else {
        Option::Some(OS::Linux)
    }
}

impl OS {
    pub fn to_fancy_string(&self) -> (r: String)
        ensures
            r@ == spec_os_name(*self),
    {
        match self {
            OS::Windows => String::from_str("Windows"),
            OS::MacOS => String::from_str("macOS"),
            OS::Linux => String::from_str("Linux"),
        }
    }

    pub fn from_asset_name(asset_name: &str) -> (r: Option<OS>)
        ensures
            r == spec_os_of_asset(asset_name@),
    {
        if str_ends_with(asset_name, ".asar.gz") {
            None
        } else if str_ends_with(asset_name, ".dmg") {
            Some(OS::MacOS)
        } else if str_ends_with(asset_name, ".exe") {
            Some(OS::Windows)
        } else {
            Some(OS::Linux)
        }
    }
}

/// A label for an asset's operating system, with a fallback for the
/// updater archive.
pub trait ToFancyString {
    fn to_fancy_string(&self) -> (r: String);
}

impl ToFancyString for Option<OS> {
    fn to_fancy_string(&self) -> (r: String) {
        match self {
            Option::Some(os) => os.to_fancy_string(),
            Option::None => String::from_str("Unknown"),
        }
    }
}

/// Index just past the third dot of the name, or nothing when the name has
/// fewer than three dots.
pub open spec fn spec_after_third_dot(s: Seq<char>) -> Option<int> {
    let d1 = find_char(s, '.');
    if d1 >= s.len() {
        Option::None
    } else {
        let d2 = d1 + 1 + find_char(s.skip(d1 + 1), '.');
        if d2 >= s.len() {
            Option::None
        } else {
            let d3 = d2 + 1 + find_char(s.skip(d2 + 1), '.');
            if d3 >= s.len() {
                Option::None
            } else {
                Option::Some(d3 + 1)
            }
        }
    }
}

/// The distribution file type of a release asset. An installer is `exe`
/// whatever its dotted shape; otherwise the version occupies the first two
/// dots, so the type is everything past the third dot. A name without one
/// has no type.
pub open spec fn spec_asset_file_type(s: Seq<char>) -> Option<Seq<char>> {
    if spec_ends_with(s, ".exe"@) {
        Option::Some("exe"@)
    } else {
        match spec_after_third_dot(s) {
            Option::Some(p) => Option::Some(s.subrange(p, s.len() as int)),
            Option::None => Option::None,
        }
    }
}

/// Index of the first `.` at or past `from`.
fn find_dot_from(s: &str, from: usize) -> (r: usize)
    requires
        from <= s@.len(),
    ensures
        r - from == find_char(s@.skip(from as int), '.'),
        from <= r <= s@.len(),
{
    let len = s.unicode_len();
    let mut i = from;
    while i < len
        invariant
            from <= i <= len,
            len == s@.len(),
            find_char(s@.skip(from as int), '.') == i - from + find_char(s@.skip(i as int), '.'),
        decreases len - i,
    {
        proof {
            assert(s@.skip(i as int).skip(1) =~= s@.skip(i + 1));
            assert(s@.skip(i as int)[0] == s@[i as int]);
        }
        if s.get_char(i) == '.' {
            return i;
        }
        i = i + 1;
    }
    proof {
        assert(s@.skip(len as int) =~= Seq::<char>::empty());
    }
    i
}

pub fn get_asset_release_file_type(file_name: &str) -> (r: Option<String>)
    ensures
        match r {
            Option::Some(t) => spec_asset_file_type(file_name@) == Option::Some(t@),
            Option::None => spec_asset_file_type(file_name@) is None,
        },
{
    if str_ends_with(file_name, ".exe") {
        proof {
            reveal_strlit("exe");
            reveal_strlit(".exe");
        }
        return Some(String::from_str("exe"));
    }
    let len = file_name.unicode_len();
    let d1 = find_dot_from(file_name, 0);
    proof {
        assert(file_name@.skip(0) =~= file_name@);
    }
    if d1 >= len {
        return None;
    }
    let d2 = find_dot_from(file_name, d1 + 1);
    if d2 >= len {
        return None;
    }
    let d3 = find_dot_from(file_name, d2 + 1);
    if d3 >= len {
        return None;
    }
    let tail = file_name.substring_char(d3 + 1, len);
    Some(tail.to_owned())
}

/// The instruction set an asset serves: universal for disk images, ARM when
/// the name says so, the default architecture otherwise.
pub open spec fn spec_asset_instruction_set(s: Seq<char>) -> Seq<char> {
    if spec_ends_with(s, ".dmg"@) {
        "both (.dmg)"@
    } else if spec_contains_arm64(s) {
        "arm64"@
    } else {
        "x86"@
    }
}

/// Whether `arm64` occurs in the name.
pub open spec fn spec_contains_arm64(s: Seq<char>) -> bool {
    exists|i: int| 0 <= i <= s.len() - 5 && #[trigger] s.subrange(i, i + 5) == "arm64"@
}

pub fn get_asset_cpu_instruction_set(file_name: &str) -> (r: &'static str)
    ensures
        r@ == spec_asset_instruction_set(file_name@),
{
    if str_ends_with(file_name, ".dmg") {
        "both (.dmg)"
    } else if contains_arm64(file_name) {
        "arm64"
    } else {
        "x86"
    }
}

fn contains_arm64(s: &str) -> (r: bool)
    ensures
        r == spec_contains_arm64(s@),
{
    proof {
        reveal_strlit("arm64");
    }
    let len = s.unicode_len();
    if len < 5 {
        return false;
    }
    let mut i: usize = 0;
    while i <= len - 5
        invariant
            len >= 5,
            i <= len - 5 + 1,
            len == s@.len(),
            forall|j: int| 0 <= j < i ==> #[trigger] s@.subrange(j, j + 5) != "arm64"@,
        decreases len - i,
    {
        let m = s.get_char(i) == 'a' && s.get_char(i + 1) == 'r' && s.get_char(i + 2) == 'm'
            && s.get_char(i + 3) == '6' && s.get_char(i + 4) == '4';
        if m {
            proof {
                assert(s@.subrange(i as int, i + 5) =~= "arm64"@);
            }
            return true;
        }
        proof {
            assert(s@.subrange(i as int, i + 5) != "arm64"@) by {
                if s@.subrange(i as int, i + 5) == "arm64"@ {
                    assert(s@.subrange(i as int, i + 5)[0] == s@[i as int]);
                    assert(s@.subrange(i as int, i + 5)[1] == s@[i + 1]);
                    assert(s@.subrange(i as int, i + 5)[2] == s@[i + 2]);
                    assert(s@.subrange(i as int, i + 5)[3] == s@[i + 3]);
                    assert(s@.subrange(i as int, i + 5)[4] == s@[i + 4]);
                }
            }
        }
        i = i + 1;
    }
    false
}

/// A changelog summary row for one minor release line.
#[derive(Debug, Clone)]
pub struct ChangelogDataPoint {
    pub minor_version: String,
    pub first_public_version: String,
    pub public_release_date: String,
    pub insider_release_date: String,
    pub number_of_insider_patches: usize,
    pub number_of_patches: usize,
}

/// The categories a changelog entry sorts into.
#[derive(Debug, Clone, Copy, PartialEq, Eq, Structural, Hash)]
pub enum ChangeLogChangeCategory {
    BreakingChange,
    BugFix,
    Developer,
    Feature,
    Improvement,
    Uncategorized,
}

pub open spec fn spec_category_name(c: ChangeLogChangeCategory) -> Seq<char> {
    match c {
        ChangeLogChangeCategory::BreakingChange => "Breaking Change"@,
        ChangeLogChangeCategory::BugFix => "Bug Fix"@,
        ChangeLogChangeCategory::Developer => "Developer"@,
        ChangeLogChangeCategory::Feature => "Feature"@,
        ChangeLogChangeCategory::Improvement => "Improvement"@,
        ChangeLogChangeCategory::Uncategorized => "Uncategorized"@,
    }
}

impl ChangeLogChangeCategory {
    pub fn to_fancy_string(&self) -> (r: String)
        ensures
            r@ == spec_category_name(*self),
    {
        match self {
            ChangeLogChangeCategory::BreakingChange => String::from_str("Breaking Change"),
            ChangeLogChangeCategory::BugFix => String::from_str("Bug Fix"),
            ChangeLogChangeCategory::Developer => String::from_str("Developer"),
            ChangeLogChangeCategory::Feature => String::from_str("Feature"),
            ChangeLogChangeCategory::Improvement => String::from_str("Improvement"),
            ChangeLogChangeCategory::Uncategorized => String::from_str("Uncategorized"),
        }
    }

    /// Every category, in the fixed report order.
    pub fn iter() -> (r: Vec<ChangeLogChangeCategory>)
        ensures
            r@ == seq![
                ChangeLogChangeCategory::Uncategorized,
                ChangeLogChangeCategory::BugFix,
                ChangeLogChangeCategory::Improvement,
                ChangeLogChangeCategory::Feature,
                ChangeLogChangeCategory::Developer,
                ChangeLogChangeCategory::BreakingChange,
            ],
    {
        let mut r: Vec<ChangeLogChangeCategory> = Vec::new();
        r.push(ChangeLogChangeCategory::Uncategorized);
        r.push(ChangeLogChangeCategory::BugFix);
        r.push(ChangeLogChangeCategory::Improvement);
        r.push(ChangeLogChangeCategory::Feature);
        r.push(ChangeLogChangeCategory::Developer);
        r.push(ChangeLogChangeCategory::BreakingChange);
        proof {
            assert(r@ =~= seq![
                ChangeLogChangeCategory::Uncategorized,
                ChangeLogChangeCategory::BugFix,
                ChangeLogChangeCategory::Improvement,
                ChangeLogChangeCategory::Feature,
                ChangeLogChangeCategory::Developer,
                ChangeLogChangeCategory::BreakingChange,
            ]);
        }
        r
    }

    /// The category a changelog heading keyword names; an unknown heading is
    /// uncategorized.
    pub fn from_keyword(value: &str) -> (r: ChangeLogChangeCategory) {
        if str_eq(value, "Shiny new things") || str_eq(value, "New shiny things") || str_eq(
            value,
            "Shiny new things for Obsidian Publish",
        ) {
            ChangeLogChangeCategory::Feature
        } else if str_eq(value, "No longer broken") || str_eq(value, "Bug fixes") {
            ChangeLogChangeCategory::BugFix
        } else if str_eq(value, "Changes") || str_eq(value, "Improvements") || str_eq(
            value,
            "Improved",
        ) {
            ChangeLogChangeCategory::Improvement
        } else if str_eq(value, "Breaking changes") {
            ChangeLogChangeCategory::BreakingChange
        } else if str_eq(value, "Developers") || str_eq(value, "Developer") || str_eq(
            value,
            "For Developers",
        ) || str_eq(value, "For developers") {
            ChangeLogChangeCategory::Developer
        } else {
            ChangeLogChangeCategory::Uncategorized
        }
    }
}

/// The categorised change counts of one release.
#[derive(Debug, Clone)]
pub struct ChangelogChanges {
    pub version: Version,
    pub version_string: String,
    pub changes: Vec<(ChangeLogChangeCategory, usize)>,
}

} // verus!

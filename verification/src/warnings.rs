//! Per-entity warnings: removal, stale releases, mismatched metadata, and
//! license findings, each kind with its own payload.

use vstd::prelude::*;

use crate::commit::StringCommit;
use crate::data_array::{spec_last_updated, FullPluginData};
use crate::date::{day_index, valid_date, Date};
use crate::plugin::LicenseInfo;

verus! {

#[derive(Debug, Clone, Copy, PartialEq, Eq, Structural)]
pub enum PluginWarningSeverity {
    Caution,
    Danger,
}

#[derive(Debug, Clone)]
pub struct PluginWarningInactivity {
    pub severity: PluginWarningSeverity,
    pub last_release_date: String,
    pub latest_version: String,
}

#[derive(Debug, Clone)]
pub struct PluginWarningRemoved {
    pub severity: PluginWarningSeverity,
    pub removed_commit: StringCommit,
    pub removed_reason: Option<String>,
}

#[derive(Debug, Clone)]
pub struct PluginWarningMismatchedManifestDataField {
    pub field: String,
    pub manifest_value: String,
    pub community_list_value: String,
}

#[derive(Debug, Clone)]
pub struct PluginWarningMismatchedManifestData {
    pub severity: PluginWarningSeverity,
    pub data: Vec<PluginWarningMismatchedManifestDataField>,
}

#[derive(Debug, Clone)]
pub struct PluginWarningUnlicensed {
    pub severity: PluginWarningSeverity,
}

#[derive(Debug, Clone)]
pub struct PluginWarningNoLicense {
    pub severity: PluginWarningSeverity,
}

#[derive(Debug, Clone)]
pub struct PluginWarningMismatchedLicense {
    pub severity: PluginWarningSeverity,
    pub license_file: String,
    pub package_json_license: String,
}

#[derive(Debug, Clone)]
pub struct PluginWarningMissingExtendedData {
    pub severity: PluginWarningSeverity,
}

#[derive(Debug, Clone)]
pub struct PluginWarningMissingRepoData {
    pub severity: PluginWarningSeverity,
    pub message: String,
}

/// One warning, tagged by kind.
#[derive(Debug, Clone)]
pub enum PluginWarning {
    Inactivity12Months(PluginWarningInactivity),
    Inactivity24Months(PluginWarningInactivity),
    Removed(PluginWarningRemoved),
    MismatchedManifestData(PluginWarningMismatchedManifestData),
    Unlicensed(PluginWarningUnlicensed),
    NoLicense(PluginWarningNoLicense),
    MismatchedLicense(PluginWarningMismatchedLicense),
    MissingExtendedData(PluginWarningMissingExtendedData),
    MissingRepoData(PluginWarningMissingRepoData),
}

pub open spec fn has_removed(ws: Seq<PluginWarning>) -> bool {
    exists|i: int| 0 <= i < ws.len() && (#[trigger] ws[i]) is Removed
}

pub open spec fn has_missing_extended(ws: Seq<PluginWarning>) -> bool {
    exists|i: int| 0 <= i < ws.len() && (#[trigger] ws[i]) is MissingExtendedData
}

pub open spec fn has_missing_repo(ws: Seq<PluginWarning>) -> bool {
    exists|i: int| 0 <= i < ws.len() && (#[trigger] ws[i]) is MissingRepoData
}

pub open spec fn has_inactive_24(ws: Seq<PluginWarning>) -> bool {
    exists|i: int| 0 <= i < ws.len() && (#[trigger] ws[i]) is Inactivity24Months
}

pub open spec fn has_inactive_12(ws: Seq<PluginWarning>) -> bool {
    exists|i: int| 0 <= i < ws.len() && (#[trigger] ws[i]) is Inactivity12Months
}

pub open spec fn has_manifest_mismatch(ws: Seq<PluginWarning>) -> bool {
    exists|i: int| 0 <= i < ws.len() && (#[trigger] ws[i]) is MismatchedManifestData
}

pub open spec fn has_unlicensed(ws: Seq<PluginWarning>) -> bool {
    exists|i: int| 0 <= i < ws.len() && (#[trigger] ws[i]) is Unlicensed
}

pub open spec fn has_no_license(ws: Seq<PluginWarning>) -> bool {
    exists|i: int| 0 <= i < ws.len() && (#[trigger] ws[i]) is NoLicense
}

pub open spec fn has_mismatched_license(ws: Seq<PluginWarning>) -> bool {
    exists|i: int| 0 <= i < ws.len() && (#[trigger] ws[i]) is MismatchedLicense
}

/// Appending one warning adds exactly its own kind.
proof fn lemma_kinds_push(ws: Seq<PluginWarning>, x: PluginWarning)
    ensures
        has_removed(ws.push(x)) == (has_removed(ws) || x is Removed),
        has_missing_extended(ws.push(x)) == (has_missing_extended(ws)
            || x is MissingExtendedData),
        has_missing_repo(ws.push(x)) == (has_missing_repo(ws) || x is MissingRepoData),
        has_inactive_24(ws.push(x)) == (has_inactive_24(ws) || x is Inactivity24Months),
        has_inactive_12(ws.push(x)) == (has_inactive_12(ws) || x is Inactivity12Months),
        has_manifest_mismatch(ws.push(x)) == (has_manifest_mismatch(ws)
            || x is MismatchedManifestData),
        has_unlicensed(ws.push(x)) == (has_unlicensed(ws) || x is Unlicensed),
        has_no_license(ws.push(x)) == (has_no_license(ws) || x is NoLicense),
        has_mismatched_license(ws.push(x)) == (has_mismatched_license(ws)
            || x is MismatchedLicense),
{
    let p = ws.push(x);
    assert(p[ws.len() as int] == x);
    assert(forall|i: int| 0 <= i < ws.len() ==> p[i] == #[trigger] ws[i]);
    assert(forall|i: int| 0 <= i < p.len() - 1 ==> #[trigger] p[i] == ws[i]);
}

/// Appending a warning with a well-formed payload keeps every payload well
/// formed.
proof fn lemma_payload_push(ws: Seq<PluginWarning>, x: PluginWarning, p: FullPluginData)
    requires
        forall|i: int| 0 <= i < ws.len() ==> payload_ok(#[trigger] ws[i], p),
        payload_ok(x, p),
    ensures
        forall|i: int| 0 <= i < ws.push(x).len() ==> payload_ok(#[trigger] ws.push(x)[i], p),
{
    let q = ws.push(x);
    assert(q[ws.len() as int] == x);
    assert(forall|i: int| 0 <= i < q.len() - 1 ==> #[trigger] q[i] == ws[i]);
}

/// Whether the record calls for the severe inactivity warning: not removed,
/// and the last activity more than two years before the cutoff.
pub open spec fn spec_inactive_24(p: FullPluginData, now: Date) -> bool {
    p.data.removed_commit is None && day_index(spec_last_updated(p.data)) < day_index(now) - 730
}

/// The mild inactivity warning: not removed, more than one year stale but
/// within two.
pub open spec fn spec_inactive_12(p: FullPluginData, now: Date) -> bool {
    p.data.removed_commit is None && !spec_inactive_24(p, now) && day_index(
        spec_last_updated(p.data),
    ) < day_index(now) - 365
}

/// The repository scan found an explicit dedication to no license.
pub open spec fn spec_unlicensed(p: FullPluginData) -> bool {
    match crate::data_array::spec_repo_of(p) {
        Option::Some(repo) => repo.file_license is ExplicitlyUnlicensed,
        Option::None => false,
    }
}

/// The repository scan found no license file at all.
pub open spec fn spec_no_license(p: FullPluginData) -> bool {
    match crate::data_array::spec_repo_of(p) {
        Option::Some(repo) => repo.file_license is NotFound,
        Option::None => false,
    }
}

/// The license file and the package manifest both name a license, and they
/// disagree.
pub open spec fn spec_license_mismatch(p: FullPluginData) -> bool {
    match crate::data_array::spec_repo_of(p) {
        Option::Some(repo) => match (repo.file_license, repo.package_json_license) {
            (LicenseInfo::Known(a), LicenseInfo::Known(b)) => a@ != b@,
            _ => false,
        },
        Option::None => false,
    }
}

/// The version text of the entity's latest release; an entity without one
/// reports an unknown version.
pub open spec fn spec_latest_version_text(d: crate::plugin::PluginData) -> Seq<char> {
    if d.version_history@.len() > 0 {
        d.version_history@.last().version@
    } else {
        "Unknown"@
    }
}

/// The fixed report order of the manifest fields.
pub open spec fn spec_field_rank(s: Seq<char>) -> int {
    if s == "name"@ {
        0
    } else if s == "description"@ {
        1
    } else {
        2
    }
}

/// The mismatched-manifest payload lists exactly the disagreeing fields, in
/// the order name, description, author, each carrying the manifest's value
/// and the registry entry's value.
pub open spec fn mismatch_fields_ok(
    fs: Seq<PluginWarningMismatchedManifestDataField>,
    p: FullPluginData,
) -> bool {
    match crate::data_array::spec_repo_of(p) {
        Option::Some(repo) => {
            &&& forall|j: int|
                0 <= j < fs.len() ==> ((#[trigger] fs[j]).field@ == "name"@ || fs[j].field@
                    == "description"@ || fs[j].field@ == "author"@)
            &&& ((exists|j: int| 0 <= j < fs.len() && (#[trigger] fs[j]).field@ == "name"@)
                <==> repo.manifest.name@ != p.data.current_entry.name@)
            &&& ((exists|j: int|
                0 <= j < fs.len() && (#[trigger] fs[j]).field@ == "description"@)
                <==> repo.manifest.description@ != p.data.current_entry.description@)
            &&& ((exists|j: int| 0 <= j < fs.len() && (#[trigger] fs[j]).field@ == "author"@)
                <==> repo.manifest.author@ != p.data.current_entry.author@)
            &&& forall|j: int|
                0 <= j < fs.len() && (#[trigger] fs[j]).field@ == "name"@
                    ==> fs[j].manifest_value@ == repo.manifest.name@
                    && fs[j].community_list_value@ == p.data.current_entry.name@
            &&& forall|j: int|
                0 <= j < fs.len() && (#[trigger] fs[j]).field@ == "description"@
                    ==> fs[j].manifest_value@ == repo.manifest.description@
                    && fs[j].community_list_value@ == p.data.current_entry.description@
            &&& forall|j: int|
                0 <= j < fs.len() && (#[trigger] fs[j]).field@ == "author"@
                    ==> fs[j].manifest_value@ == repo.manifest.author@
                    && fs[j].community_list_value@ == p.data.current_entry.author@
            &&& forall|j: int, k: int|
                0 <= j < k < fs.len() ==> spec_field_rank((#[trigger] fs[j]).field@)
                    < spec_field_rank((#[trigger] fs[k]).field@)
        },
        Option::None => false,
    }
}

/// What each warning kind's payload must carry: the inactivity warnings the
/// latest release's date text, version text and fixed severity; the
/// manifest-mismatch warning its exact field list; the license-mismatch
/// warning the two disagreeing license names. Kinds without stated payload
/// pass.
pub open spec fn payload_ok(w: PluginWarning, p: FullPluginData) -> bool {
    match w {
        PluginWarning::Inactivity24Months(pl) => pl.severity == PluginWarningSeverity::Danger
            && pl.last_release_date@ == crate::date::spec_date_string(spec_last_updated(p.data))
            && pl.latest_version@ == spec_latest_version_text(p.data),
        PluginWarning::Inactivity12Months(pl) => pl.severity == PluginWarningSeverity::Caution
            && pl.last_release_date@ == crate::date::spec_date_string(spec_last_updated(p.data))
            && pl.latest_version@ == spec_latest_version_text(p.data),
        PluginWarning::MismatchedManifestData(md) => md.severity
            == PluginWarningSeverity::Caution && mismatch_fields_ok(md.data@, p),
        PluginWarning::MismatchedLicense(ml) => match crate::data_array::spec_repo_of(p) {
            Option::Some(repo) => match (repo.file_license, repo.package_json_license) {
                (LicenseInfo::Known(a), LicenseInfo::Known(b)) => ml.license_file@ == a@
                    && ml.package_json_license@ == b@,
                _ => false,
            },
            Option::None => false,
        },
        _ => true,
    }
}

/// Whether the manifest of a scanned repository disagrees with the current
/// registry entry on name, description or author.
pub open spec fn spec_manifest_mismatch(p: FullPluginData) -> bool {
    match p.extended {
        Option::Some(e) => match e.repo {
            Result::Ok(repo) => repo.manifest.name@ != p.data.current_entry.name@
                || repo.manifest.description@ != p.data.current_entry.description@
                || repo.manifest.author@ != p.data.current_entry.author@,
            Result::Err(_) => false,
        },
        Option::None => false,
    }
}

/// The warnings of one record at the cutoff date. Exactly one warning of
/// each applicable kind is reported: a removal silences the inactivity
/// checks, and the license checks need a successful repository scan.
pub fn get_plugin_warnings(data: &FullPluginData, now: &Date) -> (r: Vec<PluginWarning>)
    requires
        valid_date(*now),
        valid_date(data.data.added_commit.date),
        now.year <= 1_000_000,
        forall|i: int|
            0 <= i < data.data.version_history@.len() ==> valid_date(
                (#[trigger] data.data.version_history@[i]).initial_release_date,
            ) && data.data.version_history@[i].initial_release_date.year <= 1_000_000,
        data.data.added_commit.date.year <= 1_000_000,
        day_index(*now) - 730 > crate::date::spec_year_offset(0),
    ensures
        has_missing_extended(r@) <==> data.extended is None,
        has_missing_repo(r@) <==> (match data.extended {
            Option::Some(e) => !(e.repo is Ok),
            Option::None => false,
        }),
        has_removed(r@) <==> data.data.removed_commit is Some,
        has_inactive_24(r@) <==> spec_inactive_24(*data, *now),
        has_inactive_12(r@) <==> spec_inactive_12(*data, *now),
        has_manifest_mismatch(r@) <==> spec_manifest_mismatch(*data),
        has_unlicensed(r@) <==> spec_unlicensed(*data),
        has_no_license(r@) <==> spec_no_license(*data),
        has_mismatched_license(r@) <==> spec_license_mismatch(*data),
        forall|i: int| 0 <= i < r@.len() ==> payload_ok(#[trigger] r@[i], *data),
{
    let mut warnings: Vec<PluginWarning> = Vec::new();

    // absent auxiliary data and failed scans
    match &data.extended {
        Option::None => {
            {
                let w_item = PluginWarning::MissingExtendedData(
                    PluginWarningMissingExtendedData { severity: PluginWarningSeverity::Danger },
                );
                let ghost pre_ws = warnings@;
                let ghost gw = w_item;
                warnings.push(w_item);
                proof {
                    lemma_kinds_push(pre_ws, gw);
                    lemma_payload_push(pre_ws, gw, *data);
                }
            }
        },
        Option::Some(e) => {
            match &e.repo {
                Result::Err(msg) => {
                    {
                let w_item = PluginWarning::MissingRepoData(
                            PluginWarningMissingRepoData {
                                severity: PluginWarningSeverity::Danger,
                                message: msg.clone(),
                            },
                        );
                let ghost pre_ws = warnings@;
                let ghost gw = w_item;
                warnings.push(w_item);
                proof {
                    lemma_kinds_push(pre_ws, gw);
                    lemma_payload_push(pre_ws, gw, *data);
                }
            }
                },
                Result::Ok(_) => {},
            }
        },
    }

    // manifest fields that disagree with the registry entry
    match &data.extended {
        Option::Some(e) => match &e.repo {
            Result::Ok(repo) => {
                let mut fields: Vec<PluginWarningMismatchedManifestDataField> = Vec::new();
                let name_differs = !crate::digits::str_eq(
                    repo.manifest.name.as_str(),
                    data.data.current_entry.name.as_str(),
                );
                if name_differs {
                    fields.push(
                        PluginWarningMismatchedManifestDataField {
                            field: String::from_str("name"),
                            manifest_value: repo.manifest.name.clone(),
                            community_list_value: data.data.current_entry.name.clone(),
                        },
                    );
                }
                let ghost len_n = fields@.len() as int;
                let desc_differs = !crate::digits::str_eq(
                    repo.manifest.description.as_str(),
                    data.data.current_entry.description.as_str(),
                );
                if desc_differs {
                    fields.push(
                        PluginWarningMismatchedManifestDataField {
                            field: String::from_str("description"),
                            manifest_value: repo.manifest.description.clone(),
                            community_list_value: data.data.current_entry.description.clone(),
                        },
                    );
                }
                let ghost len_d = fields@.len() as int;
                let auth_differs = !crate::digits::str_eq(
                    repo.manifest.author.as_str(),
                    data.data.current_entry.author.as_str(),
                );
                if auth_differs {
                    fields.push(
                        PluginWarningMismatchedManifestDataField {
                            field: String::from_str("author"),
                            manifest_value: repo.manifest.author.clone(),
                            community_list_value: data.data.current_entry.author.clone(),
                        },
                    );
                }
                proof {
                    reveal_strlit("name");
                    reveal_strlit("description");
                    reveal_strlit("author");
                    assert("name"@.len() == 4 && "description"@.len() == 11 && "author"@.len()
                        == 6);
                    assert("name"@ != "description"@ && "name"@ != "author"@ && "description"@
                        != "author"@);
                    let fsv = fields@;
                    if name_differs {
                        assert(fsv[0].field@ == "name"@ && fsv[0].manifest_value@
                            == repo.manifest.name@ && fsv[0].community_list_value@
                            == data.data.current_entry.name@);
                    }
                    if desc_differs {
                        assert(fsv[len_n].field@ == "description"@ && fsv[len_n].manifest_value@
                            == repo.manifest.description@ && fsv[len_n].community_list_value@
                            == data.data.current_entry.description@);
                    }
                    if auth_differs {
                        assert(fsv[len_d].field@ == "author"@ && fsv[len_d].manifest_value@
                            == repo.manifest.author@ && fsv[len_d].community_list_value@
                            == data.data.current_entry.author@);
                    }
                    assert forall|j: int|
                        0 <= j < fsv.len() implies (((#[trigger] fsv[j]).field@ == "name"@ && j
                        < len_n) || (fsv[j].field@ == "description"@ && len_n <= j < len_d) || (
                    fsv[j].field@ == "author"@ && len_d <= j)) by {
                        if j < len_n {
                        } else if j < len_d {
                        } else {
                        }
                    }
                    assert(mismatch_fields_ok(fields@, *data));
                }
                if fields.len() > 0 {
                    {
                let w_item = PluginWarning::MismatchedManifestData(
                            PluginWarningMismatchedManifestData {
                                severity: PluginWarningSeverity::Caution,
                                data: fields,
                            },
                        );
                let ghost pre_ws = warnings@;
                let ghost gw = w_item;
                warnings.push(w_item);
                proof {
                    lemma_kinds_push(pre_ws, gw);
                    lemma_payload_push(pre_ws, gw, *data);
                }
            }
                }
            },
            Result::Err(_) => {},
        },
        Option::None => {},
    }

    // license findings of a successful scan
    match &data.extended {
        Option::Some(e) => match &e.repo {
            Result::Ok(repo) => {
                match (&repo.file_license, &repo.package_json_license) {
                    (LicenseInfo::ExplicitlyUnlicensed, _) => {
                        {
                let w_item = PluginWarning::Unlicensed(
                                PluginWarningUnlicensed {
                                    severity: PluginWarningSeverity::Caution,
                                },
                            );
                let ghost pre_ws = warnings@;
                let ghost gw = w_item;
                warnings.push(w_item);
                proof {
                    lemma_kinds_push(pre_ws, gw);
                    lemma_payload_push(pre_ws, gw, *data);
                }
            }
                    },
                    (LicenseInfo::NotFound, _) => {
                        {
                let w_item = PluginWarning::NoLicense(
                                PluginWarningNoLicense {
                                    severity: PluginWarningSeverity::Caution,
                                },
                            );
                let ghost pre_ws = warnings@;
                let ghost gw = w_item;
                warnings.push(w_item);
                proof {
                    lemma_kinds_push(pre_ws, gw);
                    lemma_payload_push(pre_ws, gw, *data);
                }
            }
                    },
                    (LicenseInfo::Known(file_name), LicenseInfo::Known(pkg_name)) => {
                        if !crate::digits::str_eq(file_name.as_str(), pkg_name.as_str()) {
                            {
                let w_item = PluginWarning::MismatchedLicense(
                                    PluginWarningMismatchedLicense {
                                        severity: PluginWarningSeverity::Caution,
                                        license_file: file_name.clone(),
                                        package_json_license: pkg_name.clone(),
                                    },
                                );
                let ghost pre_ws = warnings@;
                let ghost gw = w_item;
                warnings.push(w_item);
                proof {
                    lemma_kinds_push(pre_ws, gw);
                    lemma_payload_push(pre_ws, gw, *data);
                }
            }
                        }
                    },
                    _ => {},
                }
            },
            Result::Err(_) => {},
        },
        Option::None => {},
    }

    // removal, or staleness of the release stream
    match &data.data.removed_commit {
        Option::Some(commit) => {
            let removed_reason = match &data.extended {
                Option::Some(e) => match &e.removal_reason {
                    Option::Some(reason) => Some(reason.clone()),
                    Option::None => None,
                },
                Option::None => None,
            };
            {
                let w_item = PluginWarning::Removed(
                    PluginWarningRemoved {
                        severity: PluginWarningSeverity::Danger,
                        removed_commit: commit.to_string_commit(),
                        removed_reason,
                    },
                );
                let ghost pre_ws = warnings@;
                let ghost gw = w_item;
                warnings.push(w_item);
                proof {
                    lemma_kinds_push(pre_ws, gw);
                    lemma_payload_push(pre_ws, gw, *data);
                }
            }
        },
        Option::None => {
            let last = last_release_info(data);
            let mut two_years_ago = *now;
            two_years_ago.reverse_days(730);
            let mut one_year_ago = *now;
            one_year_ago.reverse_days(365);
            proof {
                crate::date::lemma_date_order_index(last.0, two_years_ago);
                crate::date::lemma_date_order_index(last.0, one_year_ago);
            }
            if crate::date::date_lt(&last.0, &two_years_ago) {
                {
                let w_item = PluginWarning::Inactivity24Months(
                        PluginWarningInactivity {
                            severity: PluginWarningSeverity::Danger,
                            last_release_date: last.0.to_fancy_string(),
                            latest_version: last.1,
                        },
                    );
                let ghost pre_ws = warnings@;
                let ghost gw = w_item;
                warnings.push(w_item);
                proof {
                    lemma_kinds_push(pre_ws, gw);
                    lemma_payload_push(pre_ws, gw, *data);
                }
            }
            } else if crate::date::date_lt(&last.0, &one_year_ago) {
                {
                let w_item = PluginWarning::Inactivity12Months(
                        PluginWarningInactivity {
                            severity: PluginWarningSeverity::Caution,
                            last_release_date: last.0.to_fancy_string(),
                            latest_version: last.1,
                        },
                    );
                let ghost pre_ws = warnings@;
                let ghost gw = w_item;
                warnings.push(w_item);
                proof {
                    lemma_kinds_push(pre_ws, gw);
                    lemma_payload_push(pre_ws, gw, *data);
                }
            }
            }
        },
    }

    warnings
}

/// The date and version text of the latest release; an entity without one
/// reports its addition date and an unknown version.
fn last_release_info(data: &FullPluginData) -> (r: (Date, String))
    ensures
        r.0 == spec_last_updated(data.data),
        r.1@ == spec_latest_version_text(data.data),
{
    proof {
        reveal_strlit("Unknown");
    }
    let len = data.data.version_history.len();
    if len > 0 {
        let vh = &data.data.version_history[len - 1];
        (vh.initial_release_date, vh.version.clone())
    } else {
        (data.data.added_commit.date, String::from_str("Unknown"))
    }
}

} // verus!

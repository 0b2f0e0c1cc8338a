//! The license corpus: fingerprints and display descriptions attached to
//! repository scans by the excluded collaborators.

use vstd::prelude::*;

verus! {

/// One known license: its identifiers and classified properties.
#[derive(Debug, Clone)]
pub struct LicenseData {
    pub title: String,
    pub spdx_id: String,
    pub description: String,
    pub how: String,
    pub permissions: Vec<String>,
    pub conditions: Vec<String>,
    pub limitations: Vec<String>,
}

/// A display description of one license property.
#[derive(Debug, Clone)]
pub struct LicenseDescription {
    pub description: String,
    pub label: String,
    pub tag: String,
}

#[derive(Debug, Clone)]
pub struct LicenseDescriptionNested {
    pub permissions: Vec<LicenseDescription>,
    pub conditions: Vec<LicenseDescription>,
    pub limitations: Vec<LicenseDescription>,
}

/// The whole license corpus.
#[derive(Debug, Clone)]
pub struct Licenses {
    pub licenses: Vec<LicenseData>,
    pub permissions: Vec<String>,
    pub conditions: Vec<String>,
    pub limitations: Vec<String>,
    pub descriptions: LicenseDescriptionNested,
}

/// Two property descriptions carry the same text.
pub open spec fn desc_eq(a: LicenseDescription, b: LicenseDescription) -> bool {
    a.description@ == b.description@ && a.label@ == b.label@ && a.tag@ == b.tag@
}

/// Two description tables carry the same text, entry for entry.
pub open spec fn descs_eq(a: LicenseDescriptionNested, b: LicenseDescriptionNested) -> bool {
    &&& a.permissions@.len() == b.permissions@.len()
    &&& forall|i: int|
        0 <= i < a.permissions@.len() ==> desc_eq(
            #[trigger] a.permissions@[i],
            b.permissions@[i],
        )
    &&& a.conditions@.len() == b.conditions@.len()
    &&& forall|i: int|
        0 <= i < a.conditions@.len() ==> desc_eq(#[trigger] a.conditions@[i], b.conditions@[i])
    &&& a.limitations@.len() == b.limitations@.len()
    &&& forall|i: int|
        0 <= i < a.limitations@.len() ==> desc_eq(
            #[trigger] a.limitations@[i],
            b.limitations@[i],
        )
}

/// Copies one description, text for text.
fn clone_desc(d: &LicenseDescription) -> (r: LicenseDescription)
    ensures
        desc_eq(r, *d),
{
    LicenseDescription {
        description: d.description.clone(),
        label: d.label.clone(),
        tag: d.tag.clone(),
    }
}

/// Copies one description list, text for text.
fn clone_desc_list(ds: &Vec<LicenseDescription>) -> (r: Vec<LicenseDescription>)
    ensures
        r@.len() == ds@.len(),
        forall|i: int| 0 <= i < ds@.len() ==> desc_eq(#[trigger] r@[i], ds@[i]),
{
    let mut r: Vec<LicenseDescription> = Vec::new();
    let mut i: usize = 0;
    while i < ds.len()
        invariant
            i <= ds@.len(),
            r@.len() == i,
            forall|j: int| 0 <= j < i ==> desc_eq(#[trigger] r@[j], ds@[j]),
        decreases ds@.len() - i,
    {
        r.push(clone_desc(&ds[i]));
        i = i + 1;
    }
    r
}

/// Copies the whole description table, text for text.
pub fn clone_descriptions(d: &LicenseDescriptionNested) -> (r: LicenseDescriptionNested)
    ensures
        descs_eq(r, *d),
{
    LicenseDescriptionNested {
        permissions: clone_desc_list(&d.permissions),
        conditions: clone_desc_list(&d.conditions),
        limitations: clone_desc_list(&d.limitations),
    }
}

} // verus!

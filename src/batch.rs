//! The decisions of one run over a set of manifests: which files to edit,
//! whether the user agreed, and whether the run failed. The caller does the
//! reading, writing and asking.

use vstd::prelude::*;
use vstd::string::StrSliceExecFns;
use crate::manifest::ManifestError;

verus! {

/// What the detector said of one manifest.
#[derive(Clone, Debug, PartialEq, Eq)]
pub enum FileCheck {
    /// It already declares `project.dynamic`: it is left alone.
    AlreadyDynamic,
    /// It is to be edited.
    NeedsEdit,
    /// It could not be read or parsed: it is reported and left alone.
    Failed(String),
}

/// The check of one manifest from the detector's result.
pub fn check_of(r: Result<bool, ManifestError>) -> (c: FileCheck)
    ensures
        r == Ok::<bool, ManifestError>(true) <==> c == FileCheck::AlreadyDynamic,
        r == Ok::<bool, ManifestError>(false) <==> c == FileCheck::NeedsEdit,
        r is Err <==> c is Failed,
        r matches Err(ManifestError::Parse(m)) ==> c == FileCheck::Failed(m),
{
    match r {
        Ok(true) => FileCheck::AlreadyDynamic,
        Ok(false) => FileCheck::NeedsEdit,
        Err(ManifestError::Parse(m)) => FileCheck::Failed(m),
    }
}

/// The indices of the manifests to edit, in order.
pub fn files_to_edit(checks: &Vec<FileCheck>) -> (r: Vec<usize>)
    ensures
        r@.len() <= checks@.len(),
        forall|k: int| 0 <= k < r@.len() ==> r@[k] < checks@.len() && checks@[r@[k] as int]
            == FileCheck::NeedsEdit,
        forall|k: int, l: int| 0 <= k < l < r@.len() ==> r@[k] < r@[l],
        forall|j: int|
            0 <= j < checks@.len() && checks@[j] == FileCheck::NeedsEdit ==> r@.contains(
                j as usize,
            ),
{
    let mut r: Vec<usize> = Vec::new();
    let mut i: usize = 0;
    while i < checks.len()
        invariant
            0 <= i <= checks@.len(),
            r@.len() <= i,
            forall|k: int| 0 <= k < r@.len() ==> r@[k] < i && checks@[r@[k] as int] == FileCheck::NeedsEdit,
            forall|k: int, l: int| 0 <= k < l < r@.len() ==> r@[k] < r@[l],
            forall|j: int| 0 <= j < i && checks@[j] == FileCheck::NeedsEdit ==> r@.contains(j as usize),
        decreases checks@.len() - i,
    {
        let needs = match &checks[i] {
            FileCheck::NeedsEdit => true,
            _ => false,
        };
        let ghost before = r@;
        if needs {
            r.push(i);
            assert(r@[r@.len() - 1] == i);
        }
        assert forall|j: int|
            0 <= j < i + 1 && checks@[j] == FileCheck::NeedsEdit implies r@.contains(j as usize) by {
            if j < i {
                let k = choose|k: int| 0 <= k < before.len() && before[k] == j as usize;
                assert(r@[k] == j as usize);
            } else {
                assert(r@[r@.len() - 1] == i);
            }
        }
        i = i + 1;
    }
    r
}

/// Whether a (trimmed) answer to the confirmation question agrees: it
/// begins with `y` or `Y`.
pub fn confirms(answer: &str) -> (r: bool)
    ensures
        r == (answer@.len() > 0 && (answer@[0] == 'y' || answer@[0] == 'Y')),
{
    if answer.unicode_len() == 0 {
        return false;
    }
    let c = answer.get_char(0);
    c == 'y' || c == 'Y'
}

/// Whether the user has to be asked before any file is edited.
pub fn needs_confirmation(yes: bool, to_edit: usize) -> (r: bool)
    ensures
        r == (!yes && to_edit > 0),
{
    !yes && to_edit > 0
}

/// Whether a run failed: some manifest could not be edited.
pub fn run_failed(edited: &Vec<bool>) -> (r: bool)
    ensures
        r == exists|i: int| 0 <= i < edited@.len() && !edited@[i],
{
    let mut i: usize = 0;
    while i < edited.len()
        invariant
            0 <= i <= edited@.len(),
            forall|j: int| 0 <= j < i ==> edited@[j],
        decreases edited@.len() - i,
    {
        if !edited[i] {
            return true;
        }
        i = i + 1;
    }
    false
}

} // verus!

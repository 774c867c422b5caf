//! The snippet-package data model and the package-manager capability. The
//! managers themselves (index download, git cloning, archive handling) are
//! external collaborators implementing the trait.

use vstd::prelude::*;

verus! {

/// One installable snippet package as listed in the index.
#[derive(Clone, Debug, PartialEq)]
pub struct Package {
    pub name: String,
    pub title: String,
    pub version: String,
    pub repo: String,
    pub desc: String,
    pub author: String,
    pub is_core: bool,
    pub original_repo: String,
}

/// Whether a package whose listing does not say so is a core package: it
/// is not.
pub fn default_is_core() -> (r: bool)
    ensures
        !r,
{
    false
}

/// The original repository of a package whose listing does not name one:
/// empty.
pub fn default_original_repo() -> (r: String)
    ensures
        r@ == Seq::<char>::empty(),
{
    String::new()
}

/// The package index: when it was last updated, and its packages.
#[derive(Clone, Debug, PartialEq)]
pub struct PackageIndex {
    pub last_update: u64,
    pub packages: Vec<Package>,
}

/// A failure of a package-manager operation.
#[derive(Clone, Debug, PartialEq)]
pub struct PackageError {
    pub message: String,
}

#[derive(Clone, Debug, PartialEq)]
pub enum UpdateResult {
    NotOutdated,
    Updated,
}

#[derive(Clone, Debug, PartialEq)]
pub enum InstallResult {
    NotFoundInIndex,
    NotFoundInRepo,
    UnableToParsePackageInfo,
    MissingPackageVersion,
    AlreadyInstalled,
    Installed,
    BlockedExternalPackage(String),
}

#[derive(Clone, Debug, PartialEq)]
pub enum RemoveResult {
    NotFound,
    Removed,
}

/// The package-manager capability: keeping the index fresh, and
/// installing, removing and listing packages.
pub trait PackageManager: Sized {
    fn is_index_outdated(&self) -> bool;

    fn update_index(&mut self, force: bool) -> Result<UpdateResult, PackageError>;

    fn get_package(&self, name: &str) -> Option<Package>;

    fn install_package(&self, name: &str, allow_external: bool) -> Result<
        InstallResult,
        PackageError,
    >;

    fn install_package_from_repo(&self, name: &str, repo_url: &str) -> Result<
        InstallResult,
        PackageError,
    >;

    fn remove_package(&self, name: &str) -> Result<RemoveResult, PackageError>;

    fn list_local_packages(&self) -> Vec<Package>;
}

} // verus!

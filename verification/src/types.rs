//! The packages, updates and errors that the library speaks of, each with its model.
use vstd::prelude::*;

verus! {

/// Packages ending with one of the devel suffixes are checked against the repository, as well as
/// just by pkgver and pkgrel.
pub const DEVEL_SUFFIXES: [&'static str; 1] = ["-git"];

/// Why a check cannot be answered.
#[derive(Debug)]
pub enum Error {
    /// What a command printed is no text.
    Stdout(std::str::Utf8Error),
    /// The list of ignored packages, or that of the installed ones, is no text.
    GetIgnoredPackagesFailed,
    /// The commit hash of a repository's head has too few digits.
    HeadIdentifierTooShort,
    /// A .SRCINFO cannot be read.
    ParseErrorSrcinfo(srcinfo::Error),
    /// A line of `checkupdates` has too few words.
    ParseErrorCheckUpdates(String),
    /// A line of `pacman -Qm` has no version.
    ParseErrorPacman(String),
    /// A version has no pkgrel.
    ParseErrorPkgverPkgrel(String),
}

/// The model of an [`Error`].
pub enum ErrorView {
    Stdout(std::str::Utf8Error),
    GetIgnoredPackagesFailed,
    HeadIdentifierTooShort,
    ParseErrorSrcinfo(srcinfo::Error),
    ParseErrorCheckUpdates(Seq<char>),
    ParseErrorPacman(Seq<char>),
    ParseErrorPkgverPkgrel(Seq<char>),
}

impl DeepView for Error {
    type V = ErrorView;

    open spec fn deep_view(&self) -> ErrorView {
        match self {
            Error::Stdout(e) => ErrorView::Stdout(*e),
            Error::GetIgnoredPackagesFailed => ErrorView::GetIgnoredPackagesFailed,
            Error::HeadIdentifierTooShort => ErrorView::HeadIdentifierTooShort,
            Error::ParseErrorSrcinfo(e) => ErrorView::ParseErrorSrcinfo(*e),
            Error::ParseErrorCheckUpdates(s) => ErrorView::ParseErrorCheckUpdates(s@),
            Error::ParseErrorPacman(s) => ErrorView::ParseErrorPacman(s@),
            Error::ParseErrorPkgverPkgrel(s) => ErrorView::ParseErrorPkgverPkgrel(s@),
        }
    }
}

/// The model of what a function returns that can fail.
pub open spec fn outcome<T: DeepView>(res: Result<T, Error>) -> Result<T::V, ErrorView> {
    match res {
        Ok(v) => Ok(v.deep_view()),
        Err(e) => Err(e.deep_view()),
    }
}

/// All of `results` where none has failed, else the first failure.
pub open spec fn collect<T>(results: Seq<Result<T, ErrorView>>) -> Result<Seq<T>, ErrorView>
    decreases results.len(),
{
    if results.len() == 0 {
        Ok(seq![])
    } else {
        match collect(results.drop_last()) {
            Ok(done) => match results.last() {
                Ok(v) => Ok(done.push(v)),
                Err(e) => Err(e),
            },
            Err(e) => Err(e),
        }
    }
}

/// What has failed among the first results has failed among all.
pub proof fn lemma_collect_prefix<T>(results: Seq<Result<T, ErrorView>>, n: int)
    requires
        0 <= n <= results.len(),
    ensures
        collect(results.take(n)) matches Err(e) ==> collect(results) == Err::<Seq<T>, ErrorView>(e),
    decreases results.len() - n,
{
    if n == results.len() {
        assert(results.take(n) =~= results);
    } else {
        assert(results.take(n + 1).drop_last() =~= results.take(n));
        lemma_collect_prefix(results, n + 1);
    }
}

/// How a check learns of the newest versions.
pub enum CheckType<Cache> {
    /// From the repositories.
    Online,
    /// From what an earlier check returned.
    Offline(Cache),
}

/// What a check returned: the updates that are due, and the cache for offline use.
#[derive(Debug)]
pub struct UpdateCheckOutcome<T> {
    pub updates: Result<Vec<T>, Error>,
    pub cache: Result<Vec<T>, Error>,
}

/// An installed package and its newest version.
#[derive(Debug, Eq, PartialEq)]
pub struct Update {
    pub pkgname: String,
    pub pkgver_cur: String,
    pub pkgrel_cur: String,
    pub pkgver_new: String,
    pub pkgrel_new: String,
}

/// The model of an [`Update`].
#[verifier::ext_equal]
pub struct UpdateView {
    pub pkgname: Seq<char>,
    pub pkgver_cur: Seq<char>,
    pub pkgrel_cur: Seq<char>,
    pub pkgver_new: Seq<char>,
    pub pkgrel_new: Seq<char>,
}

impl DeepView for Update {
    type V = UpdateView;

    open spec fn deep_view(&self) -> UpdateView {
        UpdateView {
            pkgname: self.pkgname@,
            pkgver_cur: self.pkgver_cur@,
            pkgrel_cur: self.pkgrel_cur@,
            pkgver_new: self.pkgver_new@,
            pkgrel_new: self.pkgrel_new@,
        }
    }
}

impl Clone for Update {
    fn clone(&self) -> (res: Self)
        ensures
            res == *self,
    {
        Update {
            pkgname: self.pkgname.clone(),
            pkgver_cur: self.pkgver_cur.clone(),
            pkgrel_cur: self.pkgrel_cur.clone(),
            pkgver_new: self.pkgver_new.clone(),
            pkgrel_new: self.pkgrel_new.clone(),
        }
    }
}

/// A package that is built from a repository, and the newest commit there.
#[derive(Debug, Eq, PartialEq)]
pub struct DevelUpdate {
    pub pkgname: String,
    pub pkgver_cur: String,
    pub pkgrel_cur: String,
    /// A devel update has no pkgver or pkgrel so to speak, it has the ref of the repository.
    pub ref_id_new: String,
}

/// The model of a [`DevelUpdate`].
#[verifier::ext_equal]
pub struct DevelUpdateView {
    pub pkgname: Seq<char>,
    pub pkgver_cur: Seq<char>,
    pub pkgrel_cur: Seq<char>,
    pub ref_id_new: Seq<char>,
}

impl DeepView for DevelUpdate {
    type V = DevelUpdateView;

    open spec fn deep_view(&self) -> DevelUpdateView {
        DevelUpdateView {
            pkgname: self.pkgname@,
            pkgver_cur: self.pkgver_cur@,
            pkgrel_cur: self.pkgrel_cur@,
            ref_id_new: self.ref_id_new@,
        }
    }
}

impl Clone for DevelUpdate {
    fn clone(&self) -> (res: Self)
        ensures
            res == *self,
    {
        DevelUpdate {
            pkgname: self.pkgname.clone(),
            pkgver_cur: self.pkgver_cur.clone(),
            pkgrel_cur: self.pkgrel_cur.clone(),
            ref_id_new: self.ref_id_new.clone(),
        }
    }
}

/// An installed package.
#[derive(Debug, Eq, PartialEq)]
pub struct Package {
    pub pkgname: String,
    pub pkgver: String,
    pub pkgrel: String,
}

/// The model of a [`Package`].
#[verifier::ext_equal]
pub struct PackageView {
    pub pkgname: Seq<char>,
    pub pkgver: Seq<char>,
    pub pkgrel: Seq<char>,
}

impl DeepView for Package {
    type V = PackageView;

    open spec fn deep_view(&self) -> PackageView {
        PackageView { pkgname: self.pkgname@, pkgver: self.pkgver@, pkgrel: self.pkgrel@ }
    }
}

impl Clone for Package {
    fn clone(&self) -> (res: Self)
        ensures
            res == *self,
    {
        Package {
            pkgname: self.pkgname.clone(),
            pkgver: self.pkgver.clone(),
            pkgrel: self.pkgrel.clone(),
        }
    }
}

/// Where the source of a package is.
#[derive(Debug, Eq, PartialEq)]
pub struct PackageUrl<'a> {
    pub remote: String,
    pub protocol: &'a str,
    pub branch: Option<&'a str>,
}

/// The model of a [`PackageUrl`].
#[verifier::ext_equal]
pub struct PackageUrlView {
    pub remote: Seq<char>,
    pub protocol: Seq<char>,
    pub branch: Option<Seq<char>>,
}

impl<'a> DeepView for PackageUrl<'a> {
    type V = PackageUrlView;

    open spec fn deep_view(&self) -> PackageUrlView {
        PackageUrlView {
            remote: self.remote@,
            protocol: self.protocol@,
            branch: self.branch.deep_view(),
        }
    }
}

impl<'a> Clone for PackageUrl<'a> {
    fn clone(&self) -> (res: Self)
        ensures
            res == *self,
    {
        PackageUrl {
            remote: self.remote.clone(),
            protocol: self.protocol,
            branch: self.branch,
        }
    }
}

/// What the AUR says of a package.
#[derive(Debug, Eq, PartialEq)]
pub struct AurPackage {
    pub name: String,
    /// The pkgver and the pkgrel, with a dash between them.
    pub version: String,
}

/// The model of an [`AurPackage`].
#[verifier::ext_equal]
pub struct AurPackageView {
    pub name: Seq<char>,
    pub version: Seq<char>,
}

impl DeepView for AurPackage {
    type V = AurPackageView;

    open spec fn deep_view(&self) -> AurPackageView {
        AurPackageView { name: self.name@, version: self.version@ }
    }
}

/// What the checks read of a .SRCINFO: the version, and the sources of each architecture.
#[derive(Debug, Eq, PartialEq)]
pub struct SrcinfoBase {
    pub pkgver: String,
    pub pkgrel: String,
    pub source: Vec<Vec<String>>,
}

/// The model of a [`SrcinfoBase`].
#[verifier::ext_equal]
pub struct SrcinfoBaseView {
    pub pkgver: Seq<char>,
    pub pkgrel: Seq<char>,
    pub source: Seq<Seq<Seq<char>>>,
}

impl DeepView for SrcinfoBase {
    type V = SrcinfoBaseView;

    open spec fn deep_view(&self) -> SrcinfoBaseView {
        SrcinfoBaseView {
            pkgver: self.pkgver@,
            pkgrel: self.pkgrel@,
            source: self.source.deep_view(),
        }
    }
}

/// The .SRCINFO of a package, with the name of the package of which it was asked.
#[derive(Debug, Eq, PartialEq)]
pub struct AurSrcinfo {
    pub pkgname: String,
    pub base: SrcinfoBase,
}

/// The model of an [`AurSrcinfo`].
#[verifier::ext_equal]
pub struct AurSrcinfoView {
    pub pkgname: Seq<char>,
    pub base: SrcinfoBaseView,
}

impl DeepView for AurSrcinfo {
    type V = AurSrcinfoView;

    open spec fn deep_view(&self) -> AurSrcinfoView {
        AurSrcinfoView { pkgname: self.pkgname@, base: self.base.deep_view() }
    }
}

/// A package that is built from a repository, and where the repository is.
#[derive(Debug, Eq, PartialEq)]
pub struct DevelSource {
    pub pkgname: String,
    pub pkgver_cur: String,
    pub pkgrel_cur: String,
    pub remote: String,
    pub branch: Option<String>,
}

/// The model of a [`DevelSource`].
#[verifier::ext_equal]
pub struct DevelSourceView {
    pub pkgname: Seq<char>,
    pub pkgver_cur: Seq<char>,
    pub pkgrel_cur: Seq<char>,
    pub remote: Seq<char>,
    pub branch: Option<Seq<char>>,
}

impl DeepView for DevelSource {
    type V = DevelSourceView;

    open spec fn deep_view(&self) -> DevelSourceView {
        DevelSourceView {
            pkgname: self.pkgname@,
            pkgver_cur: self.pkgver_cur@,
            pkgrel_cur: self.pkgrel_cur@,
            remote: self.remote@,
            branch: self.branch.deep_view(),
        }
    }
}

/// How one version compares with another.
#[derive(Clone, Copy, Debug, Eq, PartialEq, Structural)]
pub enum VersionOrder {
    Older,
    Same,
    Newer,
}

} // verus!

//! The check of devel packages against the repositories that they are built from.
use crate::aur;
use crate::outside;
use crate::parse;
use crate::seqs;
use crate::text;
use crate::types;
use crate::types::{
    AurSrcinfo, AurSrcinfoView, CheckType, DevelSource, DevelSourceView, DevelUpdate,
    DevelUpdateView, Error, ErrorView, Package, PackageUrl, PackageView, SrcinfoBase,
    SrcinfoBaseView,
};
use srcinfo::Error as SrcinfoError;
use vstd::prelude::*;
use vstd::utf8::*;

verus! {

/// The number of digits in the identifier of a commit.
pub const HEAD_IDENTIFIER_LEN: usize = 7;

/// What a .SRCINFO says, with the name of the package of which it was asked.
pub open spec fn named(
    pkgname: Seq<char>,
    parsed: Result<SrcinfoBaseView, SrcinfoError>,
) -> Result<AurSrcinfoView, ErrorView> {
    match parsed {
        Ok(base) => Ok(AurSrcinfoView { pkgname, base }),
        Err(e) => Err(ErrorView::ParseErrorSrcinfo(e)),
    }
}

/// The repository that a source field of a package names, if it names one.
pub open spec fn devel_source(srcinfo: AurSrcinfoView, source: Seq<char>) -> Option<
    DevelSourceView,
> {
    match parse::git_source(source) {
        Some(url) => Some(
            DevelSourceView {
                pkgname: srcinfo.pkgname,
                pkgver_cur: srcinfo.base.pkgver,
                pkgrel_cur: srcinfo.base.pkgrel,
                remote: url.remote,
                branch: url.branch,
            },
        ),
        None => None,
    }
}

/// The repositories that a package is built from, over all architectures.
pub open spec fn package_sources(srcinfo: AurSrcinfoView) -> Seq<DevelSourceView> {
    srcinfo.base.source.flatten().filter_map(|source: Seq<char>| devel_source(srcinfo, source))
}

/// The repositories that the packages are built from.
pub open spec fn all_sources(srcinfos: Seq<AurSrcinfoView>) -> Seq<DevelSourceView> {
    srcinfos.map_values(|srcinfo: AurSrcinfoView| package_sources(srcinfo)).flatten()
}

/// The commit hash in the output of `git ls-remote`: what stands before the tab in the first line.
pub open spec fn commit_hash(output: Seq<char>) -> Seq<char> {
    let lines = text::lines_of(output);
    if lines.len() == 0 {
        seq![]
    } else {
        text::before(lines[0], "\t"@)
    }
}

/// The identifier of the head: the last digits of its commit hash.
pub open spec fn head_identifier(output: Seq<char>) -> Result<Seq<char>, ErrorView> {
    let hash = commit_hash(output);
    if hash.len() < HEAD_IDENTIFIER_LEN {
        Err(ErrorView::HeadIdentifierTooShort)
    } else {
        Ok(hash.skip(hash.len() - HEAD_IDENTIFIER_LEN))
    }
}

/// The identifier of the head in the bytes that `git ls-remote` printed.
pub open spec fn printed_head(stdout: Seq<u8>) -> Result<Seq<char>, ErrorView> {
    if valid_utf8(stdout) {
        head_identifier(decode_utf8(stdout))
    } else {
        Err(ErrorView::Stdout(outside::utf8_failure(stdout)))
    }
}

/// A package with the newest commit in its repository.
pub open spec fn with_head(source: DevelSourceView, ref_id: Seq<char>) -> DevelUpdateView {
    DevelUpdateView {
        pkgname: source.pkgname,
        pkgver_cur: source.pkgver_cur,
        pkgrel_cur: source.pkgrel_cur,
        ref_id_new: ref_id,
    }
}

/// A commit with the installed version of the package.
pub open spec fn refreshed(package: PackageView, cached: DevelUpdateView) -> DevelUpdateView {
    DevelUpdateView {
        pkgname: package.pkgname,
        pkgver_cur: package.pkgver,
        pkgrel_cur: package.pkgrel,
        ref_id_new: cached.ref_id_new,
    }
}

/// The newest commits that the cache holds of one package.
pub open spec fn package_latest(package: PackageView, cache: Seq<DevelUpdateView>) -> Seq<
    DevelUpdateView,
> {
    cache.filter(|cached: DevelUpdateView| cached.pkgname == package.pkgname).map_values(
        |cached: DevelUpdateView| refreshed(package, cached),
    )
}

/// The packages, the first of each name.
pub open spec fn first_packages(packages: Seq<PackageView>) -> Seq<PackageView>
    decreases packages.len(),
{
    if packages.len() == 0 {
        seq![]
    } else {
        let earlier = packages.drop_last();
        let package = packages.last();
        if aur::installed_as(earlier, package.pkgname) is None {
            first_packages(earlier).push(package)
        } else {
            first_packages(earlier)
        }
    }
}

/// The newest commits of the devel packages, with the installed versions, from what the
/// repositories answered or from what the cache holds. Each commit that is known of a name is
/// listed once, however often the name is.
pub open spec fn latest_offline(packages: Seq<PackageView>, cache: Seq<DevelUpdateView>) -> Seq<
    DevelUpdateView,
> {
    first_packages(packages).map_values(
        |package: PackageView| package_latest(package, cache),
    ).flatten()
}

/// Whether an update is due: whether the pkgver does not hold the newest commit.
pub open spec fn is_due(update: DevelUpdateView) -> bool {
    !text::occurs(update.pkgver_cur, update.ref_id_new)
}

/// The updates that are due.
pub open spec fn due(updates: Seq<DevelUpdateView>) -> Seq<DevelUpdateView> {
    updates.filter(|update: DevelUpdateView| is_due(update))
}

/// Where the AUR holds the .SRCINFO of a package base.
pub fn srcinfo_url(package_base: &str) -> (res: String)
    ensures
        res@ == "https://aur.archlinux.org/cgit/aur.git/plain/.SRCINFO?h="@ + package_base@,
{
    let mut res: String = "https://aur.archlinux.org/cgit/aur.git/plain/.SRCINFO?h=".to_owned();
    res.append(package_base);
    res
}

/// Parse the .SRCINFO of an AUR package.
pub fn get_aur_srcinfo(pkgname: String, raw: &str) -> (res: Result<AurSrcinfo, Error>)
    ensures
        types::outcome(res) == named(pkgname@, outside::srcinfo_of(raw@)),
{
    name_srcinfo(pkgname, outside::read_srcinfo(raw))
}

/// Give the .SRCINFO the name of the package of which it was asked: a pkgbase section has none.
pub fn name_srcinfo(pkgname: String, parsed: Result<SrcinfoBase, SrcinfoError>) -> (res: Result<
    AurSrcinfo,
    Error,
>)
    ensures
        types::outcome(res) == named(
            pkgname@,
            match parsed {
                Ok(base) => Ok(base.deep_view()),
                Err(e) => Err(e),
            },
        ),
{
    match parsed {
        Ok(base) => Ok(AurSrcinfo { pkgname, base }),
        Err(e) => Err(Error::ParseErrorSrcinfo(e)),
    }
}

/// The repositories that the packages are built from, one for each source field that names one.
pub fn devel_sources(srcinfos: &Vec<AurSrcinfo>) -> (res: Vec<DevelSource>)
    ensures
        res.deep_view() == all_sources(srcinfos.deep_view()),
{
    let ghost each = |srcinfo: AurSrcinfoView| package_sources(srcinfo);
    let ghost all = srcinfos.deep_view().map_values(each);
    let mut res: Vec<DevelSource> = Vec::new();
    let mut i: usize = 0;
    assert(res.deep_view() =~= all.take(0).flatten_alt());
    while i < srcinfos.len()
        invariant
            i <= srcinfos.len(),
            each == (|srcinfo: AurSrcinfoView| package_sources(srcinfo)),
            all == srcinfos.deep_view().map_values(each),
            res.deep_view() == all.take(i as int).flatten_alt(),
        decreases srcinfos.len() - i,
    {
        let ghost done = res.deep_view();
        let mut found: Vec<DevelSource> = sources_of(&srcinfos[i]);
        let ghost more = found.deep_view();
        res.append(&mut found);
        assert(res.deep_view() =~= done + more);
        assert(all.take(i + 1).drop_last() =~= all.take(i as int));
        i += 1;
    }
    assert(all.take(i as int) =~= all);
    proof {
        all.lemma_flatten_and_flatten_alt_are_equivalent();
    }
    res
}

/// The repositories that a package is built from.
fn sources_of(srcinfo: &AurSrcinfo) -> (res: Vec<DevelSource>)
    ensures
        res.deep_view() == package_sources(srcinfo.deep_view()),
{
    let ghost pick = |source: Seq<char>| devel_source(srcinfo.deep_view(), source);
    let ghost all = srcinfo.base.source.deep_view();
    let mut res: Vec<DevelSource> = Vec::new();
    let mut i: usize = 0;
    assert(res.deep_view() =~= all.take(0).flatten_alt().filter_map(pick));
    while i < srcinfo.base.source.len()
        invariant
            i <= srcinfo.base.source.len(),
            pick == (|source: Seq<char>| devel_source(srcinfo.deep_view(), source)),
            all == srcinfo.base.source.deep_view(),
            res.deep_view() == all.take(i as int).flatten_alt().filter_map(pick),
        decreases srcinfo.base.source.len() - i,
    {
        let ghost flat = all.take(i as int).flatten_alt();
        let ghost arch = all[i as int];
        let sources: &Vec<String> = &srcinfo.base.source[i];
        let mut j: usize = 0;
        assert(flat + arch.take(0) =~= flat);
        while j < sources.len()
            invariant
                j <= sources.len(),
                pick == (|source: Seq<char>| devel_source(srcinfo.deep_view(), source)),
                sources.deep_view() == arch,
                res.deep_view() == (flat + arch.take(j as int)).filter_map(pick),
            decreases sources.len() - j,
        {
            let ghost done = res.deep_view();
            assert((flat + arch.take(j + 1)).drop_last() =~= flat + arch.take(j as int));
            assert(sources[j as int]@ == arch[j as int]);
            if let Some(url) = parse::parse_url(sources[j].as_str()) {
                let source: DevelSource = DevelSource {
                    pkgname: srcinfo.pkgname.clone(),
                    pkgver_cur: srcinfo.base.pkgver.clone(),
                    pkgrel_cur: srcinfo.base.pkgrel.clone(),
                    branch: owned_branch(&url),
                    remote: url.remote,
                };
                res.push(source);
                assert(res.deep_view() =~= done + seq![source.deep_view()]);
            }
            j += 1;
        }
        assert(arch.take(j as int) =~= arch);
        assert(all.take(i + 1).drop_last() =~= all.take(i as int));
        i += 1;
    }
    assert(all.take(i as int) =~= all);
    proof {
        all.lemma_flatten_and_flatten_alt_are_equivalent();
    }
    res
}

/// The branch in a URL, to keep.
fn owned_branch(url: &PackageUrl) -> (res: Option<String>)
    ensures
        res.deep_view() == url.branch.deep_view(),
{
    match url.branch {
        Some(branch) => Some(branch.to_owned()),
        None => None,
    }
}

/// The arguments with which git asks a repository for its head. If a branch is not provided, HEAD
/// is selected.
pub fn ls_remote_args<'a>(remote: &'a str, branch: Option<&'a str>) -> (res: Vec<&'a str>)
    ensures
        res.deep_view() == seq![
            "ls-remote"@,
            remote@,
            match branch {
                Some(name) => name@,
                None => "HEAD"@,
            },
        ],
{
    let mut res: Vec<&'a str> = Vec::new();
    res.push("ls-remote");
    res.push(remote);
    match branch {
        Some(name) => res.push(name),
        None => res.push("HEAD"),
    }
    assert(res.deep_view() =~= seq![
        "ls-remote"@,
        remote@,
        match branch {
            Some(name) => name@,
            None => "HEAD"@,
        },
    ]);
    res
}

/// Get the head identifier for a git repo, the last 7 digits of the commit hash, from what
/// `git ls-remote` printed.
pub fn get_head_identifier(stdout: &[u8]) -> (res: Result<String, Error>)
    ensures
        types::outcome(res) == printed_head(stdout@),
{
    match outside::decode(stdout) {
        Ok(output) => parse_head_identifier(output),
        Err(e) => Err(Error::Stdout(e)),
    }
}

/// The head identifier in the output of `git ls-remote`.
pub fn parse_head_identifier(output: &str) -> (res: Result<String, Error>)
    ensures
        types::outcome(res) == head_identifier(output@),
{
    let lines: Vec<&str> = text::lines(output);
    assert(lines.deep_view() == text::lines_of(output@));
    if lines.len() == 0 {
        return Err(Error::HeadIdentifierTooShort);
    }
    let hash: &str = text::before_first(lines[0], "\t");
    let n: usize = hash.unicode_len();
    if n < HEAD_IDENTIFIER_LEN {
        return Err(Error::HeadIdentifierTooShort);
    }
    let id: &str = hash.substring_char(n - HEAD_IDENTIFIER_LEN, n);
    assert(id@ =~= hash@.skip(n - HEAD_IDENTIFIER_LEN));
    Ok(id.to_owned())
}

/// A package with the newest commit in its repository, from what `git ls-remote` printed. The
/// version is the one in the .SRCINFO, which need not be the installed one.
pub fn devel_update(source: DevelSource, stdout: &[u8]) -> (res: Result<DevelUpdate, Error>)
    ensures
        types::outcome(res) == match printed_head(stdout@) {
            Ok(ref_id) => Ok(with_head(source.deep_view(), ref_id)),
            Err(e) => Err(e),
        },
{
    match get_head_identifier(stdout) {
        Ok(ref_id) => Ok(
            DevelUpdate {
                pkgname: source.pkgname,
                pkgver_cur: source.pkgver_cur,
                pkgrel_cur: source.pkgrel_cur,
                ref_id_new: ref_id,
            },
        ),
        Err(e) => Err(e),
    }
}

/// The newest commits of the devel packages, with the installed versions, from what the
/// repositories answered or from what the cache holds.
pub fn updates_from_cache(packages: &Vec<Package>, cache: &Vec<DevelUpdate>) -> (res: Vec<
    DevelUpdate,
>)
    ensures
        res.deep_view() == latest_offline(packages.deep_view(), cache.deep_view()),
{
    let ghost each = |package: PackageView| package_latest(package, cache.deep_view());
    let ghost all = packages.deep_view();
    let mut res: Vec<DevelUpdate> = Vec::new();
    let mut i: usize = 0;
    assert(res.deep_view() =~= first_packages(all.take(0)).map_values(each).flatten_alt());
    while i < packages.len()
        invariant
            i <= packages.len(),
            each == (|package: PackageView| package_latest(package, cache.deep_view())),
            all == packages.deep_view(),
            res.deep_view() == first_packages(all.take(i as int)).map_values(each).flatten_alt(),
        decreases packages.len() - i,
    {
        let ghost done = res.deep_view();
        let ghost firsts = first_packages(all.take(i as int));
        assert(all.take(i + 1).drop_last() =~= all.take(i as int));
        if !is_named_before(packages, i) {
            let mut found: Vec<DevelUpdate> = cached_of(&packages[i], cache);
            let ghost more = found.deep_view();
            res.append(&mut found);
            assert(res.deep_view() =~= done + more);
            assert(firsts.push(all[i as int]).map_values(each).drop_last() =~= firsts.map_values(
                each,
            ));
        }
        i += 1;
    }
    assert(all.take(i as int) =~= all);
    proof {
        first_packages(all).map_values(each).lemma_flatten_and_flatten_alt_are_equivalent();
    }
    res
}

/// Whether an earlier package has the name of the one in that place.
fn is_named_before(packages: &Vec<Package>, place: usize) -> (res: bool)
    requires
        place < packages.len(),
    ensures
        res == (aur::installed_as(
            packages.deep_view().take(place as int),
            packages.deep_view()[place as int].pkgname,
        ) is Some),
{
    let ghost earlier = packages.deep_view().take(place as int);
    let ghost name = packages.deep_view()[place as int].pkgname;
    let mut i: usize = 0;
    proof {
        seqs::lemma_first_such(earlier, |package: PackageView| package.pkgname == name);
    }
    while i < place
        invariant
            i <= place < packages.len(),
            earlier == packages.deep_view().take(place as int),
            name == packages.deep_view()[place as int].pkgname,
            forall|k: int| 0 <= k < i ==> (#[trigger] earlier[k]).pkgname != name,
            aur::installed_as(earlier, name) is None ==> forall|k: int|
                0 <= k < place ==> (#[trigger] earlier[k]).pkgname != name,
        decreases place - i,
    {
        if packages[i].pkgname == packages[place].pkgname {
            assert(earlier[i as int].pkgname == name);
            return true;
        }
        assert(earlier[i as int].pkgname != name);
        i += 1;
    }
    false
}

/// The newest commits that the cache holds of one package.
fn cached_of(package: &Package, cache: &Vec<DevelUpdate>) -> (res: Vec<DevelUpdate>)
    ensures
        res.deep_view() == package_latest(package.deep_view(), cache.deep_view()),
{
    let ghost all = cache.deep_view();
    let ghost keep = |cached: DevelUpdateView| cached.pkgname == package.pkgname@;
    let ghost fresh = |cached: DevelUpdateView| refreshed(package.deep_view(), cached);
    let mut res: Vec<DevelUpdate> = Vec::new();
    let mut i: usize = 0;
    assert(res.deep_view() =~= all.take(0).filter(keep).map_values(fresh)) by {
        reveal(Seq::filter);
    }
    while i < cache.len()
        invariant
            i <= cache.len(),
            all == cache.deep_view(),
            keep == (|cached: DevelUpdateView| cached.pkgname == package.pkgname@),
            fresh == (|cached: DevelUpdateView| refreshed(package.deep_view(), cached)),
            res.deep_view() == all.take(i as int).filter(keep).map_values(fresh),
        decreases cache.len() - i,
    {
        let ghost done = res.deep_view();
        let ghost kept = all.take(i as int).filter(keep);
        assert(all.take(i + 1) =~= all.take(i as int).push(all[i as int]));
        proof {
            all.take(i as int).lemma_filter_push(all[i as int], keep);
        }
        if cache[i].pkgname == package.pkgname {
            let update: DevelUpdate = DevelUpdate {
                pkgname: package.pkgname.clone(),
                pkgver_cur: package.pkgver.clone(),
                pkgrel_cur: package.pkgrel.clone(),
                ref_id_new: cache[i].ref_id_new.clone(),
            };
            res.push(update);
            assert(res.deep_view() =~= done.push(fresh(all[i as int])));
            assert(kept.push(all[i as int]).map_values(fresh) =~= kept.map_values(fresh).push(
                fresh(all[i as int]),
            ));
        }
        i += 1;
    }
    assert(all.take(i as int) =~= all);
    res
}

/// The updates that are due.
pub fn due_updates(updates: &Vec<DevelUpdate>) -> (res: Vec<DevelUpdate>)
    ensures
        res.deep_view() == due(updates.deep_view()),
{
    let ghost all = updates.deep_view();
    let ghost keep = |update: DevelUpdateView| is_due(update);
    let mut res: Vec<DevelUpdate> = Vec::new();
    let mut i: usize = 0;
    assert(all.take(0).filter(keep) =~= seq![]) by {
        reveal(Seq::filter);
    }
    while i < updates.len()
        invariant
            i <= updates.len(),
            all == updates.deep_view(),
            keep == (|update: DevelUpdateView| is_due(update)),
            res.deep_view() == all.take(i as int).filter(keep),
        decreases updates.len() - i,
    {
        let ghost done = res.deep_view();
        assert(all.take(i + 1) =~= all.take(i as int).push(all[i as int]));
        proof {
            all.take(i as int).lemma_filter_push(all[i as int], keep);
        }
        let update: &DevelUpdate = &updates[i];
        if !text::contains(update.pkgver_cur.as_str(), update.ref_id_new.as_str()) {
            res.push(update.clone());
            assert(res.deep_view() =~= done.push(all[i as int]));
        }
        i += 1;
    }
    assert(all.take(i as int) =~= all);
    res
}

/// Check if any of the devel packages have updates to their source repositories.
/// Note that for this to be accurate, it's reliant on each devel package having only one source
/// URL. If this is not the case, there is a DevelUpdate for each source URL, and one or more may
/// be taken to be out of date.
/// Returns a tuple of:
///  - Packages that are not up to date.
///  - Latest version of all devel packages, for offline use. Offline, this is the same cache, as
///    nothing has changed.
///
/// `latest` is what the repositories of the packages answer, in whatever order. It is read online
/// only. The updates come in the order of the packages, with the installed versions, which decide
/// what is up to date. Each answer of a listed package makes one update.
pub fn check_devel_updates(
    check_type: CheckType<Vec<DevelUpdate>>,
    packages: &Vec<Package>,
    latest: Vec<DevelUpdate>,
) -> (res: (Vec<DevelUpdate>, Vec<DevelUpdate>))
    ensures
        match check_type {
            CheckType::Online => {
                &&& res.1.deep_view() == latest_offline(packages.deep_view(), latest.deep_view())
                &&& res.0.deep_view() == due(res.1.deep_view())
            },
            CheckType::Offline(cache) => {
                &&& res.1 == cache
                &&& res.0.deep_view() == due(
                    latest_offline(packages.deep_view(), cache.deep_view()),
                )
            },
        },
{
    match check_type {
        CheckType::Online => {
            let known: Vec<DevelUpdate> = updates_from_cache(packages, &latest);
            (due_updates(&known), known)
        },
        CheckType::Offline(cache) => {
            let known: Vec<DevelUpdate> = updates_from_cache(packages, &cache);
            (due_updates(&known), cache)
        },
    }
}

} // verus!

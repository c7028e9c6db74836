//! The checks that need only pacman: the updates of its own packages, and the list of those that
//! it did not install from a repository of its own.
use crate::outside;
use crate::parse;
use crate::seqs;
use crate::text;
use crate::types;
use crate::types::{CheckType, Error, ErrorView, Package, PackageView, Update, UpdateView};
use vstd::prelude::*;
use vstd::utf8::*;

verus! {

/// The updates that the output of `checkupdates` lists, one to a line.
pub open spec fn listed_updates(output: Seq<char>) -> Result<Seq<UpdateView>, ErrorView> {
    types::collect(
        text::lines_of(output).map_values(|line: Seq<char>| parse::checkupdates_line(line)),
    )
}

/// The name of the package in a line of `pacman -Qm`.
pub open spec fn line_pkgname(line: Seq<char>) -> Seq<char> {
    text::before(line, " "@)
}

/// The packages that the output of `pacman -Qm` lists, one to a line, without the ignored ones.
pub open spec fn listed_packages(ignored: Seq<Seq<char>>, output: Seq<char>) -> Result<
    Seq<PackageView>,
    ErrorView,
> {
    types::collect(
        text::lines_of(output).filter(
            |line: Seq<char>| !ignored.contains(line_pkgname(line)),
        ).map_values(|line: Seq<char>| parse::pacman_qm(line)),
    )
}

/// Whether a name in lowercase ends with one of the devel suffixes.
pub open spec fn ends_as_devel(lowercase_name: Seq<char>) -> bool {
    exists|i: int|
        0 <= i < types::DEVEL_SUFFIXES.len() && (#[trigger] types::DEVEL_SUFFIXES[i])@.is_suffix_of(
            lowercase_name,
        )
}

/// Whether a package is a devel package: whether its name ends with one of the devel suffixes, in
/// capital or small letters.
pub open spec fn is_devel(package: PackageView) -> bool {
    ends_as_devel(
        if is_ascii_chars(package.pkgname) {
            outside::ascii_lowercase_of(package.pkgname)
        } else {
            outside::lowercase_of(package.pkgname)
        },
    )
}

/// The devel packages among some packages.
pub open spec fn devel_packages(packages: Seq<PackageView>) -> Seq<PackageView> {
    packages.filter(|package: PackageView| is_devel(package))
}

/// The arguments with which `checkupdates` makes the check.
pub fn checkupdates_args(check_type: &CheckType<()>) -> (res: Vec<&'static str>)
    ensures
        res.deep_view() == match check_type {
            CheckType::Online => seq!["--nocolor"@],
            CheckType::Offline(_) => seq!["--nosync"@, "--nocolor"@],
        },
{
    let mut res: Vec<&'static str> = Vec::new();
    match check_type {
        CheckType::Online => {},
        CheckType::Offline(_) => res.push("--nosync"),
    }
    res.push("--nocolor");
    assert(res.deep_view() =~= match check_type {
        CheckType::Online => seq!["--nocolor"@],
        CheckType::Offline(_) => seq!["--nosync"@, "--nocolor"@],
    });
    res
}

/// The updates of pacman-managed packages that are due, as `checkupdates` printed them.
pub fn check_updates(stdout: &[u8]) -> (res: Result<Vec<Update>, Error>)
    ensures
        types::outcome(res) == if valid_utf8(stdout@) {
            listed_updates(decode_utf8(stdout@))
        } else {
            Err(ErrorView::Stdout(outside::utf8_failure(stdout@)))
        },
{
    match outside::decode(stdout) {
        Ok(output) => parse_updates(output),
        Err(e) => Err(Error::Stdout(e)),
    }
}

/// The updates that the output of `checkupdates` lists.
pub fn parse_updates(output: &str) -> (res: Result<Vec<Update>, Error>)
    ensures
        types::outcome(res) == listed_updates(output@),
{
    let lines: Vec<&str> = text::lines(output);
    let ghost read = |line: Seq<char>| parse::checkupdates_line(line);
    let ghost results = lines.deep_view().map_values(read);
    let mut res: Vec<Update> = Vec::new();
    let mut i: usize = 0;
    assert(res.deep_view() =~= seq![]);
    while i < lines.len()
        invariant
            i <= lines.len(),
            lines.deep_view() == text::lines_of(output@),
            read == (|line: Seq<char>| parse::checkupdates_line(line)),
            results == lines.deep_view().map_values(read),
            types::collect(results.take(i as int)) == Ok::<Seq<UpdateView>, ErrorView>(
                res.deep_view(),
            ),
        decreases lines.len() - i,
    {
        let ghost done = res.deep_view();
        assert(results.take(i + 1).drop_last() =~= results.take(i as int));
        proof {
            types::lemma_collect_prefix(results, i + 1);
        }
        match parse::parse_update(lines[i]) {
            Ok(update) => {
                res.push(update);
                assert(res.deep_view() =~= done.push(update.deep_view()));
            },
            Err(e) => return Err(e),
        }
        i += 1;
    }
    assert(results.take(i as int) =~= results);
    Ok(res)
}

/// The names of the packages that pacman ignores, as `pacman-conf IgnorePkg` printed them.
pub fn get_ignored_packages(stdout: &[u8]) -> (res: Result<Vec<String>, Error>)
    ensures
        types::outcome(res) == if valid_utf8(stdout@) {
            Ok(text::lines_of(decode_utf8(stdout@)))
        } else {
            Err(ErrorView::GetIgnoredPackagesFailed)
        },
{
    let output: &str = match outside::decode(stdout) {
        Ok(output) => output,
        Err(_) => return Err(Error::GetIgnoredPackagesFailed),
    };
    let lines: Vec<&str> = text::lines(output);
    let mut res: Vec<String> = Vec::new();
    let mut i: usize = 0;
    while i < lines.len()
        invariant
            i <= lines.len(),
            res.deep_view() == lines.deep_view().take(i as int),
        decreases lines.len() - i,
    {
        let ghost done = res.deep_view();
        res.push(lines[i].to_owned());
        assert(res.deep_view() =~= done.push(lines.deep_view()[i as int]));
        i += 1;
    }
    assert(lines.deep_view().take(i as int) =~= lines.deep_view());
    Ok(res)
}

/// Whether `name` is one of `names`.
pub fn is_among(names: &Vec<String>, name: &str) -> (res: bool)
    ensures
        res == names.deep_view().contains(name@),
{
    let mut i: usize = 0;
    while i < names.len()
        invariant
            i <= names.len(),
            !names.deep_view().take(i as int).contains(name@),
        decreases names.len() - i,
    {
        if text::same(names[i].as_str(), name) {
            assert(names.deep_view()[i as int] == name@);
            return true;
        }
        assert(names.deep_view().take(i + 1) =~= names.deep_view().take(i as int).push(
            names.deep_view()[i as int],
        ));
        i += 1;
    }
    assert(names.deep_view().take(i as int) =~= names.deep_view());
    false
}

/// All AUR packages on the system: the packages that `pacman -Qm` printed, excluding the ignored
/// ones.
pub fn get_aur_packages(ignored: &Vec<String>, stdout: &[u8]) -> (res: Result<Vec<Package>, Error>)
    ensures
        types::outcome(res) == if valid_utf8(stdout@) {
            listed_packages(ignored.deep_view(), decode_utf8(stdout@))
        } else {
            Err(ErrorView::GetIgnoredPackagesFailed)
        },
{
    match outside::decode(stdout) {
        Ok(output) => parse_packages(ignored, output),
        Err(_) => Err(Error::GetIgnoredPackagesFailed),
    }
}

/// The packages that the output of `pacman -Qm` lists, excluding the ignored ones.
pub fn parse_packages(ignored: &Vec<String>, output: &str) -> (res: Result<Vec<Package>, Error>)
    ensures
        types::outcome(res) == listed_packages(ignored.deep_view(), output@),
{
    let lines: Vec<&str> = text::lines(output);
    let ghost keep = |line: Seq<char>| !ignored.deep_view().contains(line_pkgname(line));
    let ghost read = |line: Seq<char>| parse::pacman_qm(line);
    let ghost all = lines.deep_view();
    let mut res: Vec<Package> = Vec::new();
    let mut i: usize = 0;
    assert(all.take(0).filter(keep).map_values(read) =~= seq![]) by {
        reveal(Seq::filter);
    }
    assert(res.deep_view() =~= seq![]);
    while i < lines.len()
        invariant
            i <= lines.len(),
            all == lines.deep_view(),
            all == text::lines_of(output@),
            keep == (|line: Seq<char>| !ignored.deep_view().contains(line_pkgname(line))),
            read == (|line: Seq<char>| parse::pacman_qm(line)),
            types::collect(all.take(i as int).filter(keep).map_values(read)) == Ok::<
                Seq<PackageView>,
                ErrorView,
            >(res.deep_view()),
        decreases lines.len() - i,
    {
        let ghost done = res.deep_view();
        let ghost kept = all.take(i as int).filter(keep);
        let ghost line = all[i as int];
        assert(all.take(i + 1) =~= all.take(i as int).push(line));
        proof {
            all.take(i as int).lemma_filter_push(line, keep);
        }
        if !is_among(ignored, text::before_first(lines[i], " ")) {
            let ghost results = kept.push(line).map_values(read);
            assert(results.drop_last() =~= kept.map_values(read));
            match parse::parse_pacman_qm(lines[i]) {
                Ok(package) => {
                    res.push(package);
                    assert(res.deep_view() =~= done.push(package.deep_view()));
                },
                Err(e) => {
                    proof {
                        seqs::lemma_filter_prefix(all, keep, i + 1);
                        let whole = all.filter(keep).map_values(read);
                        assert(whole.take(results.len() as int) =~= results);
                        types::lemma_collect_prefix(whole, results.len() as int);
                    }
                    return Err(e);
                },
            }
        }
        i += 1;
    }
    assert(all.take(i as int) =~= all);
    Ok(res)
}

/// Whether a name in lowercase ends with one of the devel suffixes.
pub fn has_devel_suffix(lowercase_name: &str) -> (res: bool)
    ensures
        res == ends_as_devel(lowercase_name@),
{
    let mut i: usize = 0;
    while i < types::DEVEL_SUFFIXES.len()
        invariant
            i <= types::DEVEL_SUFFIXES.len(),
            forall|j: int|
                0 <= j < i ==> !(#[trigger] types::DEVEL_SUFFIXES[j])@.is_suffix_of(
                    lowercase_name@,
                ),
        decreases types::DEVEL_SUFFIXES.len() - i,
    {
        if text::ends_with(lowercase_name, types::DEVEL_SUFFIXES[i]) {
            return true;
        }
        i += 1;
    }
    false
}

/// All devel packages among the AUR packages.
/// A devel package is an AUR package ending with one of the `DEVEL_SUFFIXES`.
pub fn get_devel_packages(packages: &Vec<Package>) -> (res: Vec<Package>)
    ensures
        res.deep_view() == devel_packages(packages.deep_view()),
        forall|i: int|
            0 <= i < packages.len() && is_ascii_chars((#[trigger] packages.deep_view()[i]).pkgname)
                ==> (res.deep_view().contains(packages.deep_view()[i]) <==> ends_as_devel(
                outside::ascii_lowercase_of(packages.deep_view()[i].pkgname),
            )),
{
    let ghost keep = |package: PackageView| is_devel(package);
    let ghost all = packages.deep_view();
    let mut res: Vec<Package> = Vec::new();
    let mut i: usize = 0;
    assert(all.take(0).filter(keep) =~= seq![]) by {
        reveal(Seq::filter);
    }
    while i < packages.len()
        invariant
            i <= packages.len(),
            all == packages.deep_view(),
            keep == (|package: PackageView| is_devel(package)),
            res.deep_view() == all.take(i as int).filter(keep),
            forall|j: int|
                0 <= j < i && is_ascii_chars((#[trigger] all[j]).pkgname) ==> is_devel(all[j])
                    == ends_as_devel(outside::ascii_lowercase_of(all[j].pkgname)),
        decreases packages.len() - i,
    {
        let ghost done = res.deep_view();
        assert(all.take(i + 1) =~= all.take(i as int).push(all[i as int]));
        proof {
            all.take(i as int).lemma_filter_push(all[i as int], keep);
        }
        let name: String = outside::lowercase(packages[i].pkgname.as_str());
        if has_devel_suffix(name.as_str()) {
            res.push(packages[i].clone());
            assert(res.deep_view() =~= done.push(all[i as int]));
        }
        i += 1;
    }
    assert(all.take(i as int) =~= all);
    assert forall|j: int| 0 <= j < all.len() implies res.deep_view().contains(#[trigger] all[j])
        == is_devel(all[j]) by {
        seqs::lemma_filter_is(all, keep, all[j]);
    }
    res
}

} // verus!

//! The check of AUR packages against the versions in the AUR.
use crate::outside;
use crate::parse;
use crate::release;
use crate::seqs;
use crate::types::{
    AurPackage, AurPackageView, CheckType, Package, PackageView, Update, UpdateView, VersionOrder,
};
use vstd::prelude::*;

verus! {

/// The installed package of that name.
pub open spec fn installed_as(installed: Seq<PackageView>, name: Seq<char>) -> Option<PackageView> {
    seqs::first_such(installed, |package: PackageView| package.pkgname == name)
}

/// What the cache holds of the package of that name.
pub open spec fn cached_as(cache: Seq<UpdateView>, name: Seq<char>) -> Option<UpdateView> {
    seqs::first_such(cache, |update: UpdateView| update.pkgname == name)
}

/// Whether the AUR gives a pkgver and a pkgrel for each installed package that it names.
pub open spec fn versions_readable(
    installed: Seq<PackageView>,
    replies: Seq<AurPackageView>,
) -> bool {
    forall|i: int|
        0 <= i < replies.len() && installed_as(installed, (#[trigger] replies[i]).name) is Some
            ==> parse::ver_and_rel(replies[i].version) is Ok
}

/// An installed package with the version in the AUR.
pub open spec fn replied_update(
    installed: Seq<PackageView>,
    reply: AurPackageView,
) -> Option<UpdateView> {
    match (installed_as(installed, reply.name), parse::ver_and_rel(reply.version)) {
        (Some(package), Ok((pkgver_new, pkgrel_new))) => Some(
            UpdateView {
                pkgname: package.pkgname,
                pkgver_cur: package.pkgver,
                pkgrel_cur: package.pkgrel,
                pkgver_new,
                pkgrel_new,
            },
        ),
        _ => None,
    }
}

/// The newest versions that an online check learns: one for each package that the AUR names and
/// that is installed, in the order of the AUR.
pub open spec fn latest_online(
    installed: Seq<PackageView>,
    replies: Seq<AurPackageView>,
) -> Seq<UpdateView> {
    replies.filter_map(|reply: AurPackageView| replied_update(installed, reply))
}

/// The entries of the cache, the first of each name.
pub open spec fn first_entries(cache: Seq<UpdateView>) -> Seq<UpdateView>
    decreases cache.len(),
{
    if cache.len() == 0 {
        seq![]
    } else {
        let earlier = cache.drop_last();
        let entry = cache.last();
        if cached_as(earlier, entry.pkgname) is None {
            first_entries(earlier).push(entry)
        } else {
            first_entries(earlier)
        }
    }
}

/// An installed package with the version in its entry of the cache.
pub open spec fn entry_update(installed: Seq<PackageView>, entry: UpdateView) -> Option<
    UpdateView,
> {
    match installed_as(installed, entry.pkgname) {
        Some(package) => Some(
            UpdateView {
                pkgname: package.pkgname,
                pkgver_cur: package.pkgver,
                pkgrel_cur: package.pkgrel,
                pkgver_new: entry.pkgver_new,
                pkgrel_new: entry.pkgrel_new,
            },
        ),
        None => None,
    }
}

/// The newest versions that an offline check knows: one for each package that the cache names and
/// that is installed, in the order of the cache. A package without an entry has no newer version.
pub open spec fn latest_offline(
    installed: Seq<PackageView>,
    cache: Seq<UpdateView>,
) -> Seq<UpdateView> {
    first_entries(cache).filter_map(|entry: UpdateView| entry_update(installed, entry))
}

/// Whether the newest version is newer than the installed one, given how their pkgvers compare.
/// Where the pkgvers are the same version, the pkgrels decide.
pub open spec fn is_newer(update: UpdateView, order: Option<VersionOrder>) -> bool {
    match order {
        Some(VersionOrder::Newer) => true,
        Some(VersionOrder::Same) => release::release_after(update.pkgrel_new, update.pkgrel_cur),
        _ => false,
    }
}

/// Whether a pkgver is a version. What begins with a number is one.
pub open spec fn is_version(pkgver: Seq<char>) -> bool {
    outside::begins_with_number(pkgver) || outside::version_order_of(pkgver, pkgver) is Some
}

/// Whether an update is due. Where the pkgver is still the same version, the pkgrels decide.
pub open spec fn is_due(update: UpdateView) -> bool {
    if update.pkgver_new == update.pkgver_cur {
        is_version(update.pkgver_cur) && release::release_after(
            update.pkgrel_new,
            update.pkgrel_cur,
        )
    } else {
        is_newer(update, outside::version_order_of(update.pkgver_new, update.pkgver_cur))
    }
}

/// The updates that are due.
pub open spec fn due(updates: Seq<UpdateView>) -> Seq<UpdateView> {
    updates.filter(|update: UpdateView| is_due(update))
}

/// The names of the packages of which an online check asks the AUR: all.
pub fn asked_names(installed: &Vec<Package>) -> (res: Vec<String>)
    ensures
        res.deep_view() == installed.deep_view().map_values(
            |package: PackageView| package.pkgname,
        ),
{
    let ghost names = installed.deep_view().map_values(|package: PackageView| package.pkgname);
    let mut res: Vec<String> = Vec::new();
    let mut i: usize = 0;
    while i < installed.len()
        invariant
            i <= installed.len(),
            names == installed.deep_view().map_values(|package: PackageView| package.pkgname),
            res.deep_view() == names.take(i as int),
        decreases installed.len() - i,
    {
        let ghost done = res.deep_view();
        res.push(installed[i].pkgname.clone());
        assert(res.deep_view() =~= done.push(names[i as int]));
        i += 1;
    }
    assert(names.take(i as int) =~= names);
    res
}

/// The place of the installed package of that name.
fn find_installed(installed: &Vec<Package>, name: &String) -> (res: Option<usize>)
    ensures
        match res {
            Some(i) => i < installed.len() && installed_as(installed.deep_view(), name@) == Some(
                installed.deep_view()[i as int],
            ),
            None => installed_as(installed.deep_view(), name@) is None,
        },
{
    let ghost all = installed.deep_view();
    let mut i: usize = 0;
    assert(all.skip(0) =~= all);
    while i < installed.len()
        invariant
            i <= installed.len(),
            all == installed.deep_view(),
            installed_as(all, name@) == installed_as(all.skip(i as int), name@),
        decreases installed.len() - i,
    {
        if installed[i].pkgname == *name {
            return Some(i);
        }
        assert(all.skip(i as int).drop_first() =~= all.skip(i + 1));
        i += 1;
    }
    None
}

/// Whether an earlier entry of the cache has the name of the one in that place.
fn is_named_before(cache: &Vec<Update>, place: usize) -> (res: bool)
    requires
        place < cache.len(),
    ensures
        res == (cached_as(
            cache.deep_view().take(place as int),
            cache.deep_view()[place as int].pkgname,
        ) is Some),
{
    let ghost earlier = cache.deep_view().take(place as int);
    let ghost name = cache.deep_view()[place as int].pkgname;
    let mut i: usize = 0;
    proof {
        seqs::lemma_first_such(earlier, |update: UpdateView| update.pkgname == name);
    }
    while i < place
        invariant
            i <= place < cache.len(),
            earlier == cache.deep_view().take(place as int),
            name == cache.deep_view()[place as int].pkgname,
            forall|k: int| 0 <= k < i ==> (#[trigger] earlier[k]).pkgname != name,
            cached_as(earlier, name) is None ==> forall|k: int|
                0 <= k < place ==> (#[trigger] earlier[k]).pkgname != name,
        decreases place - i,
    {
        if cache[i].pkgname == cache[place].pkgname {
            assert(earlier[i as int].pkgname == name);
            return true;
        }
        assert(earlier[i as int].pkgname != name);
        i += 1;
    }
    false
}

/// The newest versions that an online check learns from the AUR.
pub fn updates_from_replies(installed: &Vec<Package>, replies: &Vec<AurPackage>) -> (res: Vec<
    Update,
>)
    requires
        versions_readable(installed.deep_view(), replies.deep_view()),
    ensures
        res.deep_view() == latest_online(installed.deep_view(), replies.deep_view()),
{
    let ghost all = replies.deep_view();
    let ghost join = |reply: AurPackageView| replied_update(installed.deep_view(), reply);
    let mut res: Vec<Update> = Vec::new();
    let mut i: usize = 0;
    assert(res.deep_view() =~= all.take(0).filter_map(join));
    while i < replies.len()
        invariant
            i <= replies.len(),
            versions_readable(installed.deep_view(), replies.deep_view()),
            all == replies.deep_view(),
            join == (|reply: AurPackageView| replied_update(installed.deep_view(), reply)),
            res.deep_view() == all.take(i as int).filter_map(join),
        decreases replies.len() - i,
    {
        let ghost done = res.deep_view();
        let ghost reply = all[i as int];
        assert(all.take(i + 1).drop_last() =~= all.take(i as int));
        if let Some(k) = find_installed(installed, &replies[i].name) {
            if let Ok((pkgver_new, pkgrel_new)) = parse::parse_ver_and_rel(
                replies[i].version.as_str(),
            ) {
                let update: Update = Update {
                    pkgname: installed[k].pkgname.clone(),
                    pkgver_cur: installed[k].pkgver.clone(),
                    pkgrel_cur: installed[k].pkgrel.clone(),
                    pkgver_new,
                    pkgrel_new,
                };
                res.push(update);
                assert(res.deep_view() =~= done + seq![update.deep_view()]);
            }
        }
        i += 1;
    }
    assert(all.take(i as int) =~= all);
    res
}

/// The newest versions that an offline check knows from the cache.
pub fn updates_from_cache(installed: &Vec<Package>, cache: &Vec<Update>) -> (res: Vec<Update>)
    ensures
        res.deep_view() == latest_offline(installed.deep_view(), cache.deep_view()),
{
    let ghost all = cache.deep_view();
    let ghost join = |entry: UpdateView| entry_update(installed.deep_view(), entry);
    let mut res: Vec<Update> = Vec::new();
    let mut i: usize = 0;
    assert(res.deep_view() =~= first_entries(all.take(0)).filter_map(join));
    while i < cache.len()
        invariant
            i <= cache.len(),
            all == cache.deep_view(),
            join == (|entry: UpdateView| entry_update(installed.deep_view(), entry)),
            res.deep_view() == first_entries(all.take(i as int)).filter_map(join),
        decreases cache.len() - i,
    {
        let ghost done = res.deep_view();
        let ghost firsts = first_entries(all.take(i as int));
        let ghost entry = all[i as int];
        assert(all.take(i + 1).drop_last() =~= all.take(i as int));
        if !is_named_before(cache, i) {
            assert(firsts.push(entry).drop_last() =~= firsts);
            if let Some(k) = find_installed(installed, &cache[i].pkgname) {
                let update: Update = Update {
                    pkgname: installed[k].pkgname.clone(),
                    pkgver_cur: installed[k].pkgver.clone(),
                    pkgrel_cur: installed[k].pkgrel.clone(),
                    pkgver_new: cache[i].pkgver_new.clone(),
                    pkgrel_new: cache[i].pkgrel_new.clone(),
                };
                res.push(update);
                assert(res.deep_view() =~= done + seq![update.deep_view()]);
            }
        }
        i += 1;
    }
    assert(all.take(i as int) =~= all);
    res
}

/// Whether the newest version is newer than the installed one, given how their pkgvers compare.
/// Where that cannot be told, it is not; VCS packages with a commit hash for a pkgver are left to
/// the check of their repositories.
pub fn newer_by(update: &Update, order: Option<VersionOrder>) -> (res: bool)
    ensures
        res == is_newer(update.deep_view(), order),
{
    match order {
        Some(VersionOrder::Newer) => true,
        Some(VersionOrder::Same) => release::is_release_after(
            update.pkgrel_new.as_str(),
            update.pkgrel_cur.as_str(),
        ),
        _ => false,
    }
}

/// The updates that are due.
pub fn due_updates(updates: &Vec<Update>) -> (res: Vec<Update>)
    ensures
        res.deep_view() == due(updates.deep_view()),
{
    let ghost all = updates.deep_view();
    let ghost keep = |update: UpdateView| is_due(update);
    let mut res: Vec<Update> = Vec::new();
    let mut i: usize = 0;
    assert(all.take(0).filter(keep) =~= seq![]) by {
        reveal(Seq::filter);
    }
    while i < updates.len()
        invariant
            i <= updates.len(),
            all == updates.deep_view(),
            keep == (|update: UpdateView| is_due(update)),
            res.deep_view() == all.take(i as int).filter(keep),
        decreases updates.len() - i,
    {
        let ghost done = res.deep_view();
        assert(all.take(i + 1) =~= all.take(i as int).push(all[i as int]));
        proof {
            all.take(i as int).lemma_filter_push(all[i as int], keep);
        }
        let update: &Update = &updates[i];
        let order: Option<VersionOrder> = outside::version_order(
            update.pkgver_new.as_str(),
            update.pkgver_cur.as_str(),
        );
        if newer_by(update, order) {
            res.push(update.clone());
            assert(res.deep_view() =~= done.push(all[i as int]));
        }
        i += 1;
    }
    assert(all.take(i as int) =~= all);
    res
}

/// Check if any of the installed AUR packages have updates due.
/// Returns a tuple of:
///  - Packages that are not up to date.
///  - Latest version of all AUR packages, for offline use. Offline, this is the same cache, as
///    nothing has changed.
///
/// `replies` is what the AUR answers when asked of the [`asked_names`]. It is read online only.
pub fn check_aur_updates(
    check_type: CheckType<Vec<Update>>,
    installed: &Vec<Package>,
    replies: &Vec<AurPackage>,
) -> (res: (Vec<Update>, Vec<Update>))
    requires
        check_type is Online ==> versions_readable(installed.deep_view(), replies.deep_view()),
    ensures
        match check_type {
            CheckType::Online => {
                &&& res.1.deep_view() == latest_online(installed.deep_view(), replies.deep_view())
                &&& res.0.deep_view() == due(res.1.deep_view())
            },
            CheckType::Offline(cache) => {
                &&& res.1 == cache
                &&& res.0.deep_view() == due(
                    latest_offline(installed.deep_view(), cache.deep_view()),
                )
            },
        },
{
    match check_type {
        CheckType::Online => {
            let latest: Vec<Update> = updates_from_replies(installed, replies);
            (due_updates(&latest), latest)
        },
        CheckType::Offline(cache) => {
            let latest: Vec<Update> = updates_from_cache(installed, &cache);
            (due_updates(&latest), cache)
        },
    }
}

} // verus!

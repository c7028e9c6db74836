//! What holds of the check of AUR packages as a whole.
use crate::aur;
use crate::outside;
use crate::parse;
use crate::parse_laws;
use crate::release;
use crate::release_laws;
use crate::seqs;
use crate::text;
use crate::text_laws;
use crate::types::{AurPackageView, PackageView, UpdateView, VersionOrder};
use vstd::prelude::*;

verus! {

/// Whether the AUR names no installed package twice.
pub open spec fn replies_differ(
    installed: Seq<PackageView>,
    replies: Seq<AurPackageView>,
) -> bool {
    forall|i: int, j: int|
        0 <= i < j < replies.len() && aur::installed_as(installed, replies[i].name) is Some
            ==> #[trigger] replies[i].name != #[trigger] replies[j].name
}

/// A package whose newest version is the installed one has no update due.
pub proof fn law_same_version_is_not_due(update: UpdateView)
    requires
        update.pkgver_new == update.pkgver_cur,
        update.pkgrel_new == update.pkgrel_cur,
    ensures
        !aur::is_due(update),
{
    release_laws::law_newer_release_goes_one_way(update.pkgrel_cur, update.pkgrel_cur);
}

/// A package whose pkgver is still the same version has an update due exactly if the pkgrel is
/// newer.
pub proof fn law_newer_release_is_due(update: UpdateView)
    requires
        update.pkgver_new == update.pkgver_cur,
        starts_with_number(update.pkgver_cur),
    ensures
        aur::is_due(update) <==> release::release_after(update.pkgrel_new, update.pkgrel_cur),
{
    lemma_starts_with_number(update.pkgver_cur);
}

/// Whether a text is a number of at most nine digits, or goes on with a dot behind one.
pub open spec fn starts_with_number(s: Seq<char>) -> bool {
    exists|n: int|
        1 <= n <= 9 && n <= s.len() && release_laws::digits(#[trigger] s.take(n)) && (n == s.len()
            || s[n] == '.')
}

/// What starts with a number begins with one.
proof fn lemma_starts_with_number(s: Seq<char>)
    ensures
        outside::begins_with_number(s) <==> starts_with_number(s),
{
    reveal_strlit(".");
    text_laws::law_cut_is_at_the_first(s, "."@);
    let first = text::before(s, "."@);
    release_laws::lemma_digits(first);
    if outside::begins_with_number(s) {
        let n = first.len() as int;
        assert(s.take(n) =~= first);
        assert(release_laws::digits(s.take(n)));
    }
    if starts_with_number(s) {
        let n = choose|n: int|
            1 <= n <= 9 && n <= s.len() && release_laws::digits(#[trigger] s.take(n)) && (n
                == s.len() || s[n] == '.');
        let head = s.take(n);
        assert(!head.contains('.')) by {
            assert forall|i: int| 0 <= i < head.len() implies head[i] != '.' by {
                assert('0' <= head[i] && head[i] <= '9');
            }
        }
        if n == s.len() {
            assert(head =~= s);
            text::lemma_no_cut(s, "."@);
        } else {
            assert(s =~= head + "."@ + s.skip(n + 1));
            text::lemma_cut_at(head, "."@, s.skip(n + 1));
        }
        assert(first == head);
    }
}

/// The order of the pkgvers decides whether an update is due, and the pkgrels only where the
/// pkgvers are the same version. A newer pkgver is due whatever the pkgrels are; one that is older,
/// or cannot be compared, is not. A pkgver that has not changed is the same version, if it is one.
pub proof fn law_version_decides_before_release(update: UpdateView)
    ensures
        ({
            let order = outside::version_order_of(update.pkgver_new, update.pkgver_cur);
            let newer_release = release::release_after(update.pkgrel_new, update.pkgrel_cur);
            &&& update.pkgver_new != update.pkgver_cur && order == Some(VersionOrder::Newer)
                ==> aur::is_due(update)
            &&& update.pkgver_new != update.pkgver_cur && order == Some(VersionOrder::Older)
                ==> !aur::is_due(update)
            &&& update.pkgver_new != update.pkgver_cur && order is None ==> !aur::is_due(update)
            &&& update.pkgver_new != update.pkgver_cur && order == Some(VersionOrder::Same) ==> (
            aur::is_due(update) <==> newer_release)
            &&& update.pkgver_new == update.pkgver_cur && order is Some ==> (aur::is_due(update)
                <==> newer_release)
            &&& update.pkgver_new == update.pkgver_cur && order is None && !starts_with_number(
                update.pkgver_cur,
            ) ==> !aur::is_due(update)
        }),
{
    lemma_starts_with_number(update.pkgver_cur);
}

/// Given how the pkgvers compare, a newer one is newer whatever the pkgrels are, the same one with
/// a newer pkgrel, and no other.
pub proof fn law_newer_goes_by_order(update: UpdateView)
    ensures
        aur::is_newer(update, Some(VersionOrder::Newer)),
        !aur::is_newer(update, Some(VersionOrder::Older)),
        !aur::is_newer(update, None),
        aur::is_newer(update, Some(VersionOrder::Same)) <==> release::release_after(
            update.pkgrel_new,
            update.pkgrel_cur,
        ),
{
}

/// Each update is looked at for itself: one more is reported, behind the others, exactly if it is
/// due.
pub proof fn law_due_one_by_one(latest: Seq<UpdateView>, update: UpdateView)
    ensures
        aur::due(seq![]) == Seq::<UpdateView>::empty(),
        aur::due(latest.push(update)) == if aur::is_due(update) {
            aur::due(latest).push(update)
        } else {
            aur::due(latest)
        },
{
    let keep = |u: UpdateView| aur::is_due(u);
    latest.lemma_filter_push(update, keep);
    Seq::<UpdateView>::empty().lemma_filter_len(keep);
    assert(aur::due(seq![]) =~= Seq::<UpdateView>::empty());
}

/// Whether a package in that place is the first of its name.
pub open spec fn is_first_at(installed: Seq<PackageView>, k: int) -> bool {
    0 <= k < installed.len() && forall|j: int|
        0 <= j < k ==> (#[trigger] installed[j]).pkgname != installed[k].pkgname
}

/// The first package of a name is the one that is found.
proof fn lemma_first_at(installed: Seq<PackageView>, k: int)
    requires
        is_first_at(installed, k),
    ensures
        aur::installed_as(installed, installed[k].pkgname) == Some(installed[k]),
    decreases k,
{
    let rest = installed.drop_first();
    if k > 0 {
        assert(installed[0].pkgname != installed[k].pkgname);
        assert(rest[k - 1] == installed[k]);
        assert forall|j: int| 0 <= j < k - 1 implies (#[trigger] rest[j]).pkgname != rest[k
            - 1].pkgname by {
            assert(rest[j] == installed[j + 1]);
        }
        lemma_first_at(rest, k - 1);
    }
}

/// A name that no package has is not found.
proof fn lemma_not_installed(installed: Seq<PackageView>, name: Seq<char>)
    requires
        forall|j: int| 0 <= j < installed.len() ==> (#[trigger] installed[j]).pkgname != name,
    ensures
        aur::installed_as(installed, name) is None,
{
    lemma_installed(installed, name);
}

/// One more reply of the AUR, on an installed package, makes one more update: with the installed
/// version of the package, and with the pkgver and the pkgrel that the reply writes with a dash
/// between them.
pub proof fn law_reply_makes_an_update(
    installed: Seq<PackageView>,
    replies: Seq<AurPackageView>,
    k: int,
    pkgver: Seq<char>,
    pkgrel: Seq<char>,
)
    requires
        is_first_at(installed, k),
        !pkgrel.contains('-'),
    ensures
        aur::latest_online(
            installed,
            replies.push(
                AurPackageView { name: installed[k].pkgname, version: pkgver + seq!['-'] + pkgrel },
            ),
        ) == aur::latest_online(installed, replies).push(
            UpdateView {
                pkgname: installed[k].pkgname,
                pkgver_cur: installed[k].pkgver,
                pkgrel_cur: installed[k].pkgrel,
                pkgver_new: pkgver,
                pkgrel_new: pkgrel,
            },
        ),
{
    let reply = AurPackageView {
        name: installed[k].pkgname,
        version: pkgver + seq!['-'] + pkgrel,
    };
    reveal_strlit("-");
    assert("-"@ =~= seq!['-']);
    lemma_first_at(installed, k);
    text::lemma_cut_last_at(pkgver, '-', pkgrel);
    assert(replies.push(reply).drop_last() =~= replies);
    assert(aur::latest_online(installed, replies.push(reply)) =~= aur::latest_online(
        installed,
        replies,
    ).push(aur::replied_update(installed, reply)->0));
}

/// A reply of the AUR on a package that is not installed changes nothing, and without replies
/// nothing is known.
pub proof fn law_other_reply_changes_nothing(
    installed: Seq<PackageView>,
    replies: Seq<AurPackageView>,
    reply: AurPackageView,
)
    requires
        forall|j: int| 0 <= j < installed.len() ==> (#[trigger] installed[j]).pkgname != reply.name,
    ensures
        aur::latest_online(installed, replies.push(reply)) == aur::latest_online(
            installed,
            replies,
        ),
        aur::latest_online(installed, seq![]) == Seq::<UpdateView>::empty(),
{
    lemma_not_installed(installed, reply.name);
    assert(replies.push(reply).drop_last() =~= replies);
    assert(aur::latest_online(installed, seq![]) =~= Seq::<UpdateView>::empty());
}

/// Every update of the online check has the version that the AUR replied: a reply of its name has
/// the pkgver and the pkgrel with a dash between them, and no dash in the pkgrel.
pub proof fn law_online_updates_are_as_replied(
    installed: Seq<PackageView>,
    replies: Seq<AurPackageView>,
    update: UpdateView,
)
    requires
        aur::latest_online(installed, replies).contains(update),
    ensures
        !update.pkgrel_new.contains('-'),
        exists|r: int|
            0 <= r < replies.len() && (#[trigger] replies[r]).name == update.pkgname
                && replies[r].version == update.pkgver_new + seq!['-'] + update.pkgrel_new,
{
    let r = lemma_replied(installed, replies, update);
    reveal_strlit("-");
    assert("-"@ =~= seq!['-']);
    parse_laws::law_version_is_its_parts(replies[r].version);
}

/// Every reply of the AUR on an installed package, with a version that can be read, makes an
/// update with that version.
pub proof fn law_every_reply_is_reported(
    installed: Seq<PackageView>,
    replies: Seq<AurPackageView>,
    k: int,
    r: int,
    pkgver: Seq<char>,
    pkgrel: Seq<char>,
)
    requires
        is_first_at(installed, k),
        0 <= r < replies.len(),
        replies[r].name == installed[k].pkgname,
        replies[r].version == pkgver + seq!['-'] + pkgrel,
        !pkgrel.contains('-'),
    ensures
        aur::latest_online(installed, replies).contains(
            UpdateView {
                pkgname: installed[k].pkgname,
                pkgver_cur: installed[k].pkgver,
                pkgrel_cur: installed[k].pkgrel,
                pkgver_new: pkgver,
                pkgrel_new: pkgrel,
            },
        ),
{
    reveal_strlit("-");
    assert("-"@ =~= seq!['-']);
    lemma_first_at(installed, k);
    text::lemma_cut_last_at(pkgver, '-', pkgrel);
    let join = |reply: AurPackageView| aur::replied_update(installed, reply);
    seqs::lemma_filter_map_contains_picked(replies, join, r);
}

/// The versions in the replies are readable exactly if each reply on an installed package has a
/// dash in its version.
pub proof fn law_readable_versions_have_a_dash(
    installed: Seq<PackageView>,
    replies: Seq<AurPackageView>,
)
    ensures
        aur::versions_readable(installed, replies) <==> forall|r: int, k: int|
            0 <= r < replies.len() && 0 <= k < installed.len() && (#[trigger] replies[r]).name == (
            #[trigger] installed[k]).pkgname ==> replies[r].version.contains('-'),
{
    assert forall|r: int| 0 <= r < replies.len() implies (parse::ver_and_rel(
        (#[trigger] replies[r]).version,
    ) is Ok <==> replies[r].version.contains('-')) by {
        let version = replies[r].version;
        parse_laws::law_version_is_its_parts(version);
        reveal_strlit("-");
        if let Ok((pkgver, pkgrel)) = parse::ver_and_rel(version) {
            assert(version[pkgver.len() as int] == '-');
        }
    }
    if aur::versions_readable(installed, replies) {
        assert forall|r: int, k: int|
            0 <= r < replies.len() && 0 <= k < installed.len() && (#[trigger] replies[r]).name == (
            #[trigger] installed[k]).pkgname implies replies[r].version.contains('-') by {
            let name = replies[r].name;
            seqs::lemma_first_such(installed, |package: PackageView| package.pkgname == name);
            assert(aur::installed_as(installed, name) is Some);
        }
    } else {
        let r = choose|r: int|
            0 <= r < replies.len() && aur::installed_as(
                installed,
                (#[trigger] replies[r]).name,
            ) is Some && !(parse::ver_and_rel(replies[r].version) is Ok);
        lemma_installed(installed, replies[r].name);
        let package = aur::installed_as(installed, replies[r].name)->0;
        let k = choose|k: int| 0 <= k < installed.len() && installed[k] == package;
        assert(replies[r].name == installed[k].pkgname);
    }
}

/// One more entry of the cache, the first of an installed package, makes one more update: with the
/// installed version of the package, and with the newest version in the entry.
pub proof fn law_entry_makes_an_update(
    installed: Seq<PackageView>,
    cache: Seq<UpdateView>,
    k: int,
    entry: UpdateView,
)
    requires
        is_first_at(installed, k),
        entry.pkgname == installed[k].pkgname,
        forall|j: int| 0 <= j < cache.len() ==> (#[trigger] cache[j]).pkgname != entry.pkgname,
    ensures
        aur::latest_offline(installed, cache.push(entry)) == aur::latest_offline(
            installed,
            cache,
        ).push(
            UpdateView {
                pkgname: installed[k].pkgname,
                pkgver_cur: installed[k].pkgver,
                pkgrel_cur: installed[k].pkgrel,
                pkgver_new: entry.pkgver_new,
                pkgrel_new: entry.pkgrel_new,
            },
        ),
{
    let name = entry.pkgname;
    lemma_first_at(installed, k);
    seqs::lemma_first_such(cache, |u: UpdateView| u.pkgname == name);
    let firsts = aur::first_entries(cache);
    assert(cache.push(entry).drop_last() =~= cache);
    assert(aur::first_entries(cache.push(entry)) == firsts.push(entry));
    assert(firsts.push(entry).drop_last() =~= firsts);
    assert(aur::latest_offline(installed, cache.push(entry)) =~= aur::latest_offline(
        installed,
        cache,
    ).push(aur::entry_update(installed, entry)->0));
}

/// One more entry of the cache changes nothing if the package is not installed, or has an entry
/// already. An empty cache knows nothing.
pub proof fn law_other_entry_changes_nothing(
    installed: Seq<PackageView>,
    cache: Seq<UpdateView>,
    entry: UpdateView,
)
    requires
        (forall|j: int|
            0 <= j < installed.len() ==> (#[trigger] installed[j]).pkgname != entry.pkgname) || (
        exists|j: int| 0 <= j < cache.len() && (#[trigger] cache[j]).pkgname == entry.pkgname),
    ensures
        aur::latest_offline(installed, cache.push(entry)) == aur::latest_offline(installed, cache),
        aur::latest_offline(installed, seq![]) == Seq::<UpdateView>::empty(),
{
    let name = entry.pkgname;
    lemma_installed(installed, name);
    seqs::lemma_first_such(cache, |u: UpdateView| u.pkgname == name);
    let firsts = aur::first_entries(cache);
    assert(cache.push(entry).drop_last() =~= cache);
    assert(firsts.push(entry).drop_last() =~= firsts);
    assert(aur::latest_offline(installed, seq![]) =~= Seq::<UpdateView>::empty());
    assert(aur::latest_offline(installed, cache.push(entry)) =~= aur::latest_offline(
        installed,
        cache,
    ));
}

/// The package of a name has the name, and is installed.
proof fn lemma_installed(installed: Seq<PackageView>, name: Seq<char>)
    ensures
        aur::installed_as(installed, name) matches Some(package) ==> package.pkgname == name
            && installed.contains(package),
{
    seqs::lemma_first_such(installed, |package: PackageView| package.pkgname == name);
}

/// The reply behind an update of the online check.
proof fn lemma_replied(
    installed: Seq<PackageView>,
    replies: Seq<AurPackageView>,
    update: UpdateView,
) -> (r: int)
    requires
        aur::latest_online(installed, replies).contains(update),
    ensures
        0 <= r < replies.len(),
        aur::replied_update(installed, replies[r]) == Some(update),
        replies[r].name == update.pkgname,
{
    let join = |reply: AurPackageView| aur::replied_update(installed, reply);
    replies.lemma_filter_map_contains(join, update);
    let reply = choose|reply: AurPackageView|
        #[trigger] replies.contains(reply) && join(reply) == Some(update);
    lemma_installed(installed, reply.name);
    choose|r: int| 0 <= r < replies.len() && replies[r] == reply
}

/// The updates of the online check are of installed packages: each has the name of a package that
/// is installed and that the AUR names, and the version of that package.
pub proof fn law_online_updates_are_of_installed_packages(
    installed: Seq<PackageView>,
    replies: Seq<AurPackageView>,
    update: UpdateView,
)
    requires
        aur::latest_online(installed, replies).contains(update),
    ensures
        exists|k: int|
            0 <= k < installed.len() && (#[trigger] installed[k]).pkgname == update.pkgname
                && installed[k].pkgver == update.pkgver_cur && installed[k].pkgrel
                == update.pkgrel_cur,
        exists|r: int| 0 <= r < replies.len() && (#[trigger] replies[r]).name == update.pkgname,
{
    let r = lemma_replied(installed, replies, update);
    lemma_installed(installed, replies[r].name);
    let package = aur::installed_as(installed, replies[r].name)->0;
    let k = choose|k: int| 0 <= k < installed.len() && installed[k] == package;
    assert(installed[k].pkgname == update.pkgname);
}

/// The first entries of a cache are those that are found by their names.
proof fn lemma_first_entries(cache: Seq<UpdateView>, entry: UpdateView)
    ensures
        aur::first_entries(cache).contains(entry) <==> aur::cached_as(cache, entry.pkgname) == Some(
            entry,
        ),
    decreases cache.len(),
{
    if cache.len() > 0 {
        let earlier = cache.drop_last();
        let last = cache.last();
        let firsts = aur::first_entries(earlier);
        lemma_first_entries(earlier, entry);
        assert(cache =~= earlier.push(last));
        let name = entry.pkgname;
        let named = |update: UpdateView| update.pkgname == name;
        seqs::lemma_first_such_push(earlier, last, named);
        seqs::lemma_first_such(earlier, named);
        if aur::cached_as(earlier, last.pkgname) is None {
            assert(firsts.push(last)[firsts.len() as int] == last);
            if firsts.contains(entry) {
                let k = choose|k: int| 0 <= k < firsts.len() && firsts[k] == entry;
                assert(firsts.push(last)[k] == entry);
            }
            if firsts.push(last).contains(entry) {
                let k = choose|k: int|
                    0 <= k < firsts.push(last).len() && firsts.push(last)[k] == entry;
                if k < firsts.len() {
                    assert(firsts[k] == entry);
                }
            }
        }
    }
}

/// The updates of the offline check are of installed packages: each has the name and the version
/// of a package that is installed, and the newest version that the cache holds of it.
pub proof fn law_offline_updates_are_of_installed_packages(
    installed: Seq<PackageView>,
    cache: Seq<UpdateView>,
    update: UpdateView,
)
    requires
        aur::latest_offline(installed, cache).contains(update),
    ensures
        exists|k: int|
            0 <= k < installed.len() && (#[trigger] installed[k]).pkgname == update.pkgname
                && installed[k].pkgver == update.pkgver_cur && installed[k].pkgrel
                == update.pkgrel_cur,
        aur::cached_as(cache, update.pkgname) matches Some(entry) && entry.pkgver_new
            == update.pkgver_new && entry.pkgrel_new == update.pkgrel_new,
{
    let join = |entry: UpdateView| aur::entry_update(installed, entry);
    let firsts = aur::first_entries(cache);
    firsts.lemma_filter_map_contains(join, update);
    let entry = choose|entry: UpdateView|
        #[trigger] firsts.contains(entry) && join(entry) == Some(update);
    lemma_first_entries(cache, entry);
    lemma_installed(installed, entry.pkgname);
    let package = aur::installed_as(installed, entry.pkgname)->0;
    let k = choose|k: int| 0 <= k < installed.len() && installed[k] == package;
    assert(installed[k].pkgname == update.pkgname);
}

/// An installed package with the version in the cache, or with its own where the cache has none.
pub open spec fn cached_update(cache: Seq<UpdateView>, package: PackageView) -> UpdateView {
    let (pkgver_new, pkgrel_new) = match aur::cached_as(cache, package.pkgname) {
        Some(entry) => (entry.pkgver_new, entry.pkgrel_new),
        None => (package.pkgver, package.pkgrel),
    };
    UpdateView {
        pkgname: package.pkgname,
        pkgver_cur: package.pkgver,
        pkgrel_cur: package.pkgrel,
        pkgver_new,
        pkgrel_new,
    }
}

/// The offline check answers for every installed package: it reports the package exactly if the
/// version in the cache is newer than the installed one. A package that the cache lacks is taken
/// to be up to date.
pub proof fn law_offline_answers_for_each_package(
    installed: Seq<PackageView>,
    cache: Seq<UpdateView>,
    package: PackageView,
)
    requires
        aur::installed_as(installed, package.pkgname) == Some(package),
    ensures
        aur::due(aur::latest_offline(installed, cache)).contains(cached_update(cache, package))
            <==> aur::is_due(cached_update(cache, package)),
{
    let latest = aur::latest_offline(installed, cache);
    let update = cached_update(cache, package);
    law_due_updates_are_among_the_latest(latest, update);
    match aur::cached_as(cache, package.pkgname) {
        Some(entry) => {
            let name = package.pkgname;
            seqs::lemma_first_such(cache, |u: UpdateView| u.pkgname == name);
            lemma_first_entries(cache, entry);
            let firsts = aur::first_entries(cache);
            let k = choose|k: int| 0 <= k < firsts.len() && firsts[k] == entry;
            let join = |e: UpdateView| aur::entry_update(installed, e);
            assert(join(firsts[k]) == Some(update));
            seqs::lemma_filter_map_contains_picked(firsts, join, k);
        },
        None => {
            law_same_version_is_not_due(update);
        },
    }
}

/// The updates that are due are those of the newest versions that are due.
pub proof fn law_due_updates_are_among_the_latest(latest: Seq<UpdateView>, update: UpdateView)
    ensures
        aur::due(latest).contains(update) <==> latest.contains(update) && aur::is_due(update),
{
    seqs::lemma_filter_is(latest, |u: UpdateView| aur::is_due(u), update);
}

/// Checked offline, right after a check online, the newest versions are the same, and the same
/// updates are found due, in the same order.
pub proof fn law_offline_repeats_online(
    installed: Seq<PackageView>,
    replies: Seq<AurPackageView>,
)
    requires
        replies_differ(installed, replies),
    ensures
        ({
            let latest = aur::latest_online(installed, replies);
            &&& aur::latest_offline(installed, latest) == latest
            &&& aur::due(aur::latest_offline(installed, latest)) == aur::due(latest)
        }),
    decreases replies.len(),
{
    let join = |reply: AurPackageView| aur::replied_update(installed, reply);
    let again = |entry: UpdateView| aur::entry_update(installed, entry);
    let latest = aur::latest_online(installed, replies);
    if replies.len() == 0 {
        assert(latest =~= seq![]);
        assert(aur::latest_offline(installed, latest) =~= latest);
    } else {
        let init = replies.drop_last();
        let last = replies.last();
        let earlier = aur::latest_online(installed, init);
        assert(replies_differ(installed, init)) by {
            assert forall|i: int, j: int|
                0 <= i < j < init.len() && aur::installed_as(
                    installed,
                    init[i].name,
                ) is Some implies #[trigger] init[i].name != #[trigger] init[j].name by {
                assert(init[i] == replies[i] && init[j] == replies[j]);
            }
        }
        law_offline_repeats_online(installed, init);
        if let Some(update) = join(last) {
            lemma_installed(installed, last.name);
            assert(latest =~= earlier.push(update));
            assert(latest.drop_last() =~= earlier);
            lemma_not_yet_replied(installed, replies);
            let firsts = aur::first_entries(earlier);
            assert(aur::first_entries(latest) == firsts.push(update));
            assert(firsts.push(update).drop_last() =~= firsts);
            assert(again(update) == Some(update));
            assert(aur::latest_offline(installed, latest) =~= latest);
        } else {
            assert(latest =~= earlier);
        }
    }
}

/// What the AUR names last it has not named before.
proof fn lemma_not_yet_replied(installed: Seq<PackageView>, replies: Seq<AurPackageView>)
    requires
        replies_differ(installed, replies),
        replies.len() > 0,
    ensures
        aur::cached_as(
            aur::latest_online(installed, replies.drop_last()),
            replies.last().name,
        ) is None,
{
    let init = replies.drop_last();
    let earlier = aur::latest_online(installed, init);
    let name = replies.last().name;
    seqs::lemma_first_such(earlier, |u: UpdateView| u.pkgname == name);
    if let Some(entry) = aur::cached_as(earlier, name) {
        let r = lemma_replied(installed, init, entry);
        assert(init[r] == replies[r]);
        assert(replies[r].name != replies[replies.len() - 1].name);
    }
}

} // verus!

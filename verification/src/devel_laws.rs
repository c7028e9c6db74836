//! What holds of the check of devel packages as a whole.
use crate::aur;
use crate::devel;
use crate::outside;
use crate::parse;
use crate::parse_laws;
use crate::seqs;
use crate::text;
use crate::text_laws;
use crate::types::{
    AurSrcinfoView, DevelSourceView, DevelUpdateView, ErrorView, PackageView, SrcinfoBaseView,
};
use vstd::multiset::Multiset;
use vstd::prelude::*;
use vstd::utf8::*;

verus! {

/// The updates that are due are those of the newest commits that are due.
pub proof fn law_due_updates_are_among_the_latest(
    latest: Seq<DevelUpdateView>,
    update: DevelUpdateView,
)
    ensures
        devel::due(latest).contains(update) <==> latest.contains(update) && devel::is_due(update),
{
    seqs::lemma_filter_is(latest, |u: DevelUpdateView| devel::is_due(u), update);
}

/// A package is up to date exactly if its pkgver holds the newest commit somewhere: a pkgver that
/// is something, the commit and something more is not due, and every other one is.
pub proof fn law_due_lacks_the_commit(update: DevelUpdateView, before: Seq<char>, behind: Seq<char>)
    ensures
        update.pkgver_cur == before + update.ref_id_new + behind ==> !devel::is_due(update),
        (forall|i: int| !(#[trigger] text_laws::stands(update.pkgver_cur, update.ref_id_new, i)))
            ==> devel::is_due(update),
        devel::is_due(update) ==> forall|i: int|
            !(#[trigger] text_laws::stands(update.pkgver_cur, update.ref_id_new, i)),
{
    let (s, pat) = (update.pkgver_cur, update.ref_id_new);
    assert forall|i: int| #[trigger] text_laws::stands(s, pat, i) == text::occurs_at(
        s,
        pat,
        i,
    ) by {
        text_laws::law_occurs_at_is_standing(s, pat, i);
    }
    if s == before + pat + behind {
        assert(text_laws::stands(s, pat, before.len() as int));
    }
    if text::occurs(s, pat) {
        let i = choose|i: int| text::occurs_at(s, pat, i);
        assert(text_laws::stands(s, pat, i));
    }
}

/// Each update is looked at for itself: one more is reported, behind the others, exactly if it is
/// due.
pub proof fn law_due_one_by_one(latest: Seq<DevelUpdateView>, update: DevelUpdateView)
    ensures
        devel::due(seq![]) == Seq::<DevelUpdateView>::empty(),
        devel::due(latest.push(update)) == if devel::is_due(update) {
            devel::due(latest).push(update)
        } else {
            devel::due(latest)
        },
{
    let keep = |u: DevelUpdateView| devel::is_due(u);
    latest.lemma_filter_push(update, keep);
    Seq::<DevelUpdateView>::empty().lemma_filter_len(keep);
    assert(devel::due(seq![]) =~= Seq::<DevelUpdateView>::empty());
}

/// Whether one of the packages has that name.
pub open spec fn is_named(packages: Seq<PackageView>, name: Seq<char>) -> bool {
    exists|k: int| 0 <= k < packages.len() && (#[trigger] packages[k]).pkgname == name
}

/// A package is found by a name exactly if one has it.
proof fn lemma_is_named(packages: Seq<PackageView>, name: Seq<char>)
    ensures
        is_named(packages, name) <==> aur::installed_as(packages, name) is Some,
        aur::installed_as(packages, name) matches Some(package) ==> package.pkgname == name
            && packages.contains(package),
{
    seqs::lemma_first_such(packages, |package: PackageView| package.pkgname == name);
    if let Some(package) = aur::installed_as(packages, name) {
        let k = choose|k: int| 0 <= k < packages.len() && packages[k] == package;
        assert(packages[k].pkgname == name);
    }
}

/// The first packages of each name are those that are found by their names.
proof fn lemma_first_packages(packages: Seq<PackageView>, package: PackageView)
    ensures
        devel::first_packages(packages).contains(package) <==> aur::installed_as(
            packages,
            package.pkgname,
        ) == Some(package),
    decreases packages.len(),
{
    if packages.len() > 0 {
        let earlier = packages.drop_last();
        let last = packages.last();
        let firsts = devel::first_packages(earlier);
        lemma_first_packages(earlier, package);
        assert(packages =~= earlier.push(last));
        let name = package.pkgname;
        let named = |p: PackageView| p.pkgname == name;
        seqs::lemma_first_such_push(earlier, last, named);
        seqs::lemma_first_such(earlier, named);
        if aur::installed_as(earlier, last.pkgname) is None {
            assert(firsts.push(last)[firsts.len() as int] == last);
            if firsts.contains(package) {
                let k = choose|k: int| 0 <= k < firsts.len() && firsts[k] == package;
                assert(firsts.push(last)[k] == package);
            }
            if firsts.push(last).contains(package) {
                let k = choose|k: int|
                    0 <= k < firsts.push(last).len() && firsts.push(last)[k] == package;
                if k < firsts.len() {
                    assert(firsts[k] == package);
                }
            }
        }
    }
}

/// Whether no two packages have the same name.
spec fn names_differ(packages: Seq<PackageView>) -> bool {
    forall|i: int, j: int|
        0 <= i < j < packages.len() ==> #[trigger] packages[i].pkgname
            != #[trigger] packages[j].pkgname
}

/// The first packages of each name have different names.
proof fn lemma_first_names_differ(packages: Seq<PackageView>)
    ensures
        names_differ(devel::first_packages(packages)),
    decreases packages.len(),
{
    if packages.len() > 0 {
        let earlier = packages.drop_last();
        let last = packages.last();
        let firsts = devel::first_packages(earlier);
        let all = devel::first_packages(packages);
        lemma_first_names_differ(earlier);
        assert forall|i: int, j: int| 0 <= i < j < all.len() implies #[trigger] all[i].pkgname
            != #[trigger] all[j].pkgname by {
            assert(all[i] == firsts[i]);
            if j < firsts.len() {
                assert(all[j] == firsts[j]);
            } else {
                assert(firsts.contains(firsts[i]));
                lemma_first_packages(earlier, firsts[i]);
            }
        }
    }
}

/// What is known of each of the packages, one after the other.
spec fn joined(packages: Seq<PackageView>, cache: Seq<DevelUpdateView>) -> Seq<DevelUpdateView> {
    packages.map_values(|package: PackageView| devel::package_latest(package, cache)).flatten()
}

/// What is known of the packages is what is known of all but the last, and then of the last.
proof fn lemma_latest_of_last(packages: Seq<PackageView>, cache: Seq<DevelUpdateView>)
    ensures
        packages.len() == 0 ==> joined(packages, cache) == Seq::<
            DevelUpdateView,
        >::empty(),
        packages.len() > 0 ==> joined(packages, cache) == joined(
            packages.drop_last(),
            cache,
        ) + devel::package_latest(packages.last(), cache),
{
    let each = |package: PackageView| devel::package_latest(package, cache);
    let parts = packages.map_values(each);
    parts.lemma_flatten_and_flatten_alt_are_equivalent();
    if packages.len() > 0 {
        let init = packages.drop_last().map_values(each);
        init.lemma_flatten_and_flatten_alt_are_equivalent();
        assert(parts.drop_last() =~= init);
    }
}

/// The updates of a package have its name.
proof fn lemma_package_latest_named(
    package: PackageView,
    cache: Seq<DevelUpdateView>,
    name: Seq<char>,
)
    ensures
        devel::package_latest(package, cache).filter(|u: DevelUpdateView| u.pkgname == name)
            == if package.pkgname == name {
            devel::package_latest(package, cache)
        } else {
            seq![]
        },
{
    let named = |u: DevelUpdateView| u.pkgname == name;
    let updates = devel::package_latest(package, cache);
    if package.pkgname == name {
        seqs::lemma_filter_all(updates, named);
    } else {
        updates.lemma_all_neg_filter_empty(named);
        assert(updates.filter(named) =~= seq![]);
    }
}

/// What is known of packages, filtered by a name that none of them has, is nothing.
proof fn lemma_latest_of_none(
    packages: Seq<PackageView>,
    cache: Seq<DevelUpdateView>,
    name: Seq<char>,
)
    requires
        forall|i: int| 0 <= i < packages.len() ==> (#[trigger] packages[i]).pkgname != name,
    ensures
        joined(packages, cache).filter(|u: DevelUpdateView| u.pkgname == name)
            == Seq::<DevelUpdateView>::empty(),
    decreases packages.len(),
{
    let named = |u: DevelUpdateView| u.pkgname == name;
    lemma_latest_of_last(packages, cache);
    if packages.len() == 0 {
        reveal(Seq::filter);
    } else {
        let init = packages.drop_last();
        let last = packages.last();
        assert forall|i: int| 0 <= i < init.len() implies (#[trigger] init[i]).pkgname != name by {
            assert(init[i] == packages[i]);
        }
        assert(packages[packages.len() - 1].pkgname != name);
        lemma_latest_of_none(init, cache, name);
        lemma_package_latest_named(last, cache, name);
        Seq::filter_distributes_over_add(
            joined(init, cache),
            devel::package_latest(last, cache),
            named,
        );
        assert(joined(packages, cache).filter(named) =~= seq![]);
    }
}

/// What is known of packages, filtered by the name of one of them, is what is known of that one.
proof fn lemma_latest_of_one(packages: Seq<PackageView>, cache: Seq<DevelUpdateView>, k: int)
    requires
        names_differ(packages),
        0 <= k < packages.len(),
    ensures
        joined(packages, cache).filter(
            |u: DevelUpdateView| u.pkgname == packages[k].pkgname,
        ) == devel::package_latest(packages[k], cache),
    decreases packages.len(),
{
    let name = packages[k].pkgname;
    let named = |u: DevelUpdateView| u.pkgname == name;
    let init = packages.drop_last();
    let last = packages.last();
    let n = packages.len() - 1;
    assert forall|i: int, j: int| 0 <= i < j < init.len() implies #[trigger] init[i].pkgname
        != #[trigger] init[j].pkgname by {
        assert(init[i] == packages[i] && init[j] == packages[j]);
    }
    assert(last == packages[n]);
    lemma_latest_of_last(packages, cache);
    lemma_package_latest_named(last, cache, name);
    Seq::filter_distributes_over_add(
        joined(init, cache),
        devel::package_latest(last, cache),
        named,
    );
    if k == n {
        assert forall|i: int| 0 <= i < init.len() implies (#[trigger] init[i]).pkgname != name by {
            assert(init[i] == packages[i]);
            assert(packages[i].pkgname != packages[n].pkgname);
        }
        lemma_latest_of_none(init, cache, name);
    } else {
        assert(init[k] == packages[k]);
        assert(packages[k].pkgname != packages[n].pkgname);
        lemma_latest_of_one(init, cache, k);
    }
    assert(joined(packages, cache).filter(named) =~= devel::package_latest(
        packages[k],
        cache,
    ));
    assert(named =~= (|u: DevelUpdateView| u.pkgname == packages[k].pkgname));
}

/// Checked offline, right after a check online, the newest commits are the same, and the same
/// updates are found due, in the same order.
pub proof fn law_offline_repeats_online(
    packages: Seq<PackageView>,
    latest: Seq<DevelUpdateView>,
)
    ensures
        ({
            let cache = devel::latest_offline(packages, latest);
            &&& devel::latest_offline(packages, cache) == cache
            &&& devel::due(devel::latest_offline(packages, cache)) == devel::due(cache)
        }),
{
    let cache = devel::latest_offline(packages, latest);
    let firsts = devel::first_packages(packages);
    let once = firsts.map_values(|p: PackageView| devel::package_latest(p, latest));
    let again = firsts.map_values(|p: PackageView| devel::package_latest(p, cache));
    lemma_first_names_differ(packages);
    assert forall|k: int| 0 <= k < firsts.len() implies #[trigger] again[k] == once[k] by {
        lemma_latest_of_one(firsts, latest, k);
        assert(again[k] =~= once[k]);
    }
    assert(again =~= once);
}

/// The name and the commit of an update.
pub open spec fn name_and_commit(update: DevelUpdateView) -> (Seq<char>, Seq<char>) {
    (update.pkgname, update.ref_id_new)
}

/// The names and the commits of updates, in whatever order.
pub open spec fn names_and_commits(updates: Seq<DevelUpdateView>) -> Multiset<
    (Seq<char>, Seq<char>),
> {
    updates.map_values(|u: DevelUpdateView| name_and_commit(u)).to_multiset()
}

/// Every answer of a listed package is kept, once: the newest commits have the names and the
/// commits of the answers of the packages that are listed.
pub proof fn law_each_answer_is_kept_once(
    packages: Seq<PackageView>,
    latest: Seq<DevelUpdateView>,
)
    ensures
        names_and_commits(devel::latest_offline(packages, latest)) == names_and_commits(
            latest.filter(|u: DevelUpdateView| is_named(packages, u.pkgname)),
        ),
    decreases packages.len(),
{
    let pair = |u: DevelUpdateView| name_and_commit(u);
    let listed = |u: DevelUpdateView| is_named(packages, u.pkgname);
    lemma_latest_of_last(devel::first_packages(packages), latest);
    if packages.len() == 0 {
        assert(latest.filter(listed) =~= seq![]) by {
            latest.lemma_all_neg_filter_empty(listed);
        }
        assert(devel::latest_offline(packages, latest) =~= latest.filter(listed));
    } else {
        let earlier = packages.drop_last();
        let last = packages.last();
        let before = |u: DevelUpdateView| is_named(earlier, u.pkgname);
        let mine = |u: DevelUpdateView| u.pkgname == last.pkgname;
        law_each_answer_is_kept_once(earlier, latest);
        lemma_is_named(earlier, last.pkgname);
        assert forall|u: DevelUpdateView| #[trigger] listed(u) == (before(u) || mine(u)) by {
            if before(u) {
                let k = choose|k: int|
                    0 <= k < earlier.len() && (#[trigger] earlier[k]).pkgname == u.pkgname;
                assert(packages[k].pkgname == u.pkgname);
            }
            if mine(u) {
                assert(packages[packages.len() - 1].pkgname == u.pkgname);
            }
            if listed(u) {
                let k = choose|k: int|
                    0 <= k < packages.len() && (#[trigger] packages[k]).pkgname == u.pkgname;
                if k < earlier.len() {
                    assert(earlier[k].pkgname == u.pkgname);
                }
            }
        }
        if is_named(earlier, last.pkgname) {
            seqs::lemma_filter_same(latest, listed, before);
        } else {
            let old = devel::latest_offline(earlier, latest);
            let new = devel::package_latest(last, latest);
            assert(devel::first_packages(packages).drop_last() =~= devel::first_packages(earlier));
            assert(devel::latest_offline(packages, latest) == old + new);
            assert((old + new).map_values(pair) =~= old.map_values(pair) + new.map_values(pair));
            vstd::seq_lib::lemma_multiset_commutative(
                old.map_values(pair),
                new.map_values(pair),
            );
            assert(new.map_values(pair) =~= latest.filter(mine).map_values(pair)) by {
                assert forall|i: int| 0 <= i < latest.filter(mine).len() implies mine(
                    #[trigger] latest.filter(mine)[i],
                ) by {
                    latest.lemma_filter_pred(mine, i);
                }
            }
            seqs::lemma_filter_same(latest, listed, |u: DevelUpdateView| before(u) || mine(u));
            seqs::lemma_filter_either(latest, before, mine, pair);
        }
    }
}

/// The repositories of the packages are of packages that have a .SRCINFO.
proof fn lemma_source_has_a_package(srcinfos: Seq<AurSrcinfoView>, source: DevelSourceView) -> (k:
    int)
    requires
        devel::all_sources(srcinfos).contains(source),
    ensures
        0 <= k < srcinfos.len(),
        srcinfos[k].pkgname == source.pkgname,
{
    let parts = srcinfos.map_values(|s: AurSrcinfoView| devel::package_sources(s));
    let k = seqs::lemma_flatten_holds(parts, source);
    let srcinfo = srcinfos[k];
    let fields = srcinfo.base.source.flatten();
    let pick = |field: Seq<char>| devel::devel_source(srcinfo, field);
    fields.lemma_filter_map_contains(pick, source);
    k
}

/// An online check makes one update for each source field that names a repository: with a .SRCINFO
/// for each package, and the answers of the repositories in whatever order, the newest commits
/// have the names of the packages and the heads of the repositories, each as often as a source
/// field asks for it.
pub proof fn law_each_source_makes_one_update(
    packages: Seq<PackageView>,
    srcinfos: Seq<AurSrcinfoView>,
    heads: Seq<Seq<char>>,
    latest: Seq<DevelUpdateView>,
)
    requires
        srcinfos.map_values(|s: AurSrcinfoView| s.pkgname) == packages.map_values(
            |p: PackageView| p.pkgname,
        ),
        heads.len() == devel::all_sources(srcinfos).len(),
        latest.to_multiset() == Seq::new(
            heads.len(),
            |i: int| devel::with_head(devel::all_sources(srcinfos)[i], heads[i]),
        ).to_multiset(),
    ensures
        names_and_commits(devel::latest_offline(packages, latest)) == Seq::new(
            heads.len(),
            |i: int| (devel::all_sources(srcinfos)[i].pkgname, heads[i]),
        ).to_multiset(),
{
    let sources = devel::all_sources(srcinfos);
    let answers = Seq::new(heads.len(), |i: int| devel::with_head(sources[i], heads[i]));
    let pairs = Seq::new(heads.len(), |i: int| (sources[i].pkgname, heads[i]));
    let pair = |u: DevelUpdateView| name_and_commit(u);
    let listed = |u: DevelUpdateView| is_named(packages, u.pkgname);
    assert forall|i: int| 0 <= i < latest.len() implies listed(#[trigger] latest[i]) by {
        assert(latest.contains(latest[i]));
        latest.to_multiset_ensures();
        answers.to_multiset_ensures();
        assert(latest.to_multiset().count(latest[i]) > 0);
        assert(answers.contains(latest[i]));
        let j = choose|j: int| 0 <= j < answers.len() && answers[j] == latest[i];
        assert(sources.contains(sources[j]));
        let k = lemma_source_has_a_package(srcinfos, sources[j]);
        let names = srcinfos.map_values(|s: AurSrcinfoView| s.pkgname);
        assert(names[k] == srcinfos[k].pkgname);
        assert(names.len() == packages.len());
        assert(names[k] == packages[k].pkgname);
    }
    law_each_answer_is_kept_once(packages, latest);
    seqs::lemma_filter_all(latest, listed);
    seqs::lemma_map_same_multiset(latest, answers, pair);
    assert(answers.map_values(pair) =~= pairs);
}

/// The updates are of the packages: each has the name and the version of one of them, and a commit
/// that is known of it.
pub proof fn law_updates_are_of_the_packages(
    packages: Seq<PackageView>,
    latest: Seq<DevelUpdateView>,
    update: DevelUpdateView,
)
    requires
        devel::latest_offline(packages, latest).contains(update),
    ensures
        exists|k: int, i: int|
            0 <= k < packages.len() && 0 <= i < latest.len() && #[trigger] packages[k].pkgname
                == #[trigger] latest[i].pkgname && update.pkgname == packages[k].pkgname
                && update.pkgver_cur == packages[k].pkgver && update.pkgrel_cur
                == packages[k].pkgrel && update.ref_id_new == latest[i].ref_id_new,
{
    let firsts = devel::first_packages(packages);
    let parts = firsts.map_values(|p: PackageView| devel::package_latest(p, latest));
    let f = seqs::lemma_flatten_holds(parts, update);
    assert(firsts.contains(firsts[f]));
    lemma_first_packages(packages, firsts[f]);
    lemma_is_named(packages, firsts[f].pkgname);
    let k = choose|k: int| 0 <= k < packages.len() && packages[k] == firsts[f];
    let named = |u: DevelUpdateView| u.pkgname == firsts[f].pkgname;
    let mine = latest.filter(named);
    let j = choose|j: int| 0 <= j < parts[f].len() && parts[f][j] == update;
    assert(mine.contains(mine[j]));
    seqs::lemma_filter_is(latest, named, mine[j]);
    let i = choose|i: int| 0 <= i < latest.len() && latest[i] == mine[j];
    assert(packages[k].pkgname == latest[i].pkgname);
}

/// Every commit that is known of a package makes an update with the installed version of the
/// package.
pub proof fn law_each_answer_makes_an_update(
    packages: Seq<PackageView>,
    latest: Seq<DevelUpdateView>,
    package: PackageView,
    i: int,
)
    requires
        0 <= i < latest.len(),
        aur::installed_as(packages, latest[i].pkgname) == Some(package),
    ensures
        devel::latest_offline(packages, latest).contains(
            DevelUpdateView {
                pkgname: package.pkgname,
                pkgver_cur: package.pkgver,
                pkgrel_cur: package.pkgrel,
                ref_id_new: latest[i].ref_id_new,
            },
        ),
{
    let firsts = devel::first_packages(packages);
    lemma_is_named(packages, latest[i].pkgname);
    lemma_first_packages(packages, package);
    let k = choose|k: int| 0 <= k < firsts.len() && firsts[k] == package;
    let parts = firsts.map_values(|p: PackageView| devel::package_latest(p, latest));
    let named = |u: DevelUpdateView| u.pkgname == package.pkgname;
    let mine = latest.filter(named);
    latest.lemma_filter_contains(named, i);
    let j = choose|j: int| 0 <= j < mine.len() && mine[j] == latest[i];
    assert(parts[k][j] == devel::refreshed(package, latest[i]));
    seqs::lemma_flatten_contains(parts, k, devel::refreshed(package, latest[i]));
}

/// Each source field of each package, of whatever architecture, that names a repository is asked
/// for an update.
pub proof fn law_each_source_is_asked(
    srcinfos: Seq<AurSrcinfoView>,
    package: int,
    arch: int,
    field: int,
)
    requires
        0 <= package < srcinfos.len(),
        0 <= arch < srcinfos[package].base.source.len(),
        0 <= field < srcinfos[package].base.source[arch].len(),
    ensures
        devel::devel_source(
            srcinfos[package],
            srcinfos[package].base.source[arch][field],
        ) matches Some(source) ==> devel::all_sources(srcinfos).contains(source),
{
    let srcinfo = srcinfos[package];
    let fields = srcinfo.base.source.flatten();
    let field_text = srcinfo.base.source[arch][field];
    let pick = |source: Seq<char>| devel::devel_source(srcinfo, source);
    assert(srcinfo.base.source[arch].contains(field_text));
    seqs::lemma_flatten_contains(srcinfo.base.source, arch, field_text);
    if let Some(source) = devel::devel_source(srcinfo, field_text) {
        let k = choose|k: int| 0 <= k < fields.len() && fields[k] == field_text;
        seqs::lemma_filter_map_contains_picked(fields, pick, k);
        assert(devel::package_sources(srcinfo).contains(source));
        let parts = srcinfos.map_values(|s: AurSrcinfoView| devel::package_sources(s));
        assert(parts[package] == devel::package_sources(srcinfo));
        seqs::lemma_flatten_contains(parts, package, source);
    }
}

/// The output of `git ls-remote` for one ref gives the last digits of its commit hash.
pub proof fn law_head_identifier_ends_the_hash(hash: Seq<char>, name: Seq<char>)
    requires
        hash.len() >= devel::HEAD_IDENTIFIER_LEN,
        !hash.contains('\t'),
        parse_laws::is_line(hash + seq!['\t'] + name),
    ensures
        devel::head_identifier(parse_laws::output_text(seq![hash + seq!['\t'] + name])) == Ok::<
            Seq<char>,
            ErrorView,
        >(hash.skip(hash.len() - devel::HEAD_IDENTIFIER_LEN)),
{
    reveal_strlit("\t");
    assert("\t"@ =~= seq!['\t']);
    parse_laws::law_lines_read_back(seq![hash + seq!['\t'] + name]);
    text::lemma_cut_at(hash, seq!['\t'], name);
}

/// What `git ls-remote` prints is read in its first line, up to the first tab: the identifier is
/// the last seven characters of that, and fewer than seven are an error.
pub proof fn law_head_is_in_the_first_line(
    hash: Seq<char>,
    name: Option<Seq<char>>,
    end: Seq<char>,
    rest: Seq<char>,
)
    requires
        !hash.contains('\t'),
        text_laws::is_ended(head_line(hash, name), end, rest),
    ensures
        hash.len() >= 7 ==> devel::head_identifier(head_line(hash, name) + end + rest) == Ok::<
            _,
            ErrorView,
        >(hash.subrange(hash.len() - 7, hash.len() as int)),
        hash.len() < 7 ==> devel::head_identifier(head_line(hash, name) + end + rest) == Err::<
            Seq<char>,
            _,
        >(ErrorView::HeadIdentifierTooShort),
        devel::head_identifier(seq![]) == Err::<Seq<char>, _>(ErrorView::HeadIdentifierTooShort),
{
    reveal_strlit("\t");
    assert("\t"@ =~= seq!['\t']);
    text_laws::law_lines_one_by_one(head_line(hash, name), end, rest);
    match name {
        Some(n) => text::lemma_cut_at(hash, "\t"@, n),
        None => text::lemma_no_cut(hash, "\t"@),
    }
    let lines = text::lines_of(head_line(hash, name) + end + rest);
    assert(lines[0] == head_line(hash, name));
    assert(devel::commit_hash(head_line(hash, name) + end + rest) == hash);
    if hash.len() >= 7 {
        assert(hash.skip(hash.len() - 7) =~= hash.subrange(hash.len() - 7, hash.len() as int));
    }
}

/// A line with a commit hash and, behind a tab, the name of a ref.
pub open spec fn head_line(hash: Seq<char>, name: Option<Seq<char>>) -> Seq<char> {
    match name {
        Some(n) => hash + seq!['\t'] + n,
        None => hash,
    }
}

/// The bytes of a text are read as the text, and other bytes are an error.
pub proof fn law_head_is_read_as_text(output: Seq<char>, stdout: Seq<u8>)
    ensures
        devel::printed_head(encode_utf8(output)) == devel::head_identifier(output),
        !valid_utf8(stdout) ==> devel::printed_head(stdout) == Err::<Seq<char>, _>(
            ErrorView::Stdout(outside::utf8_failure(stdout)),
        ),
{
    encode_utf8_valid_utf8(output);
    encode_utf8_decode_utf8(output);
}

/// An update of a repository has the name and the version that its source has, and the commit.
pub proof fn law_head_keeps_the_source(source: DevelSourceView, ref_id: Seq<char>)
    ensures
        devel::with_head(source, ref_id).pkgname == source.pkgname,
        devel::with_head(source, ref_id).pkgver_cur == source.pkgver_cur,
        devel::with_head(source, ref_id).pkgrel_cur == source.pkgrel_cur,
        devel::with_head(source, ref_id).ref_id_new == ref_id,
{
}

/// A .SRCINFO is kept as it was read, under the name of the package of which it was asked, and an
/// error as it is.
pub proof fn law_srcinfo_is_kept(
    pkgname: Seq<char>,
    base: SrcinfoBaseView,
    error: srcinfo::Error,
)
    ensures
        devel::named(pkgname, Ok(base)) matches Ok(srcinfo) && srcinfo.pkgname == pkgname
            && srcinfo.base.pkgver == base.pkgver && srcinfo.base.pkgrel == base.pkgrel
            && srcinfo.base.source == base.source,
        devel::named(pkgname, Err(error)) == Err::<AurSrcinfoView, _>(
            ErrorView::ParseErrorSrcinfo(error),
        ),
{
}

/// A .SRCINFO with other source fields.
pub open spec fn with_fields(
    srcinfo: AurSrcinfoView,
    source: Seq<Seq<Seq<char>>>,
) -> AurSrcinfoView {
    AurSrcinfoView {
        pkgname: srcinfo.pkgname,
        base: SrcinfoBaseView {
            pkgver: srcinfo.base.pkgver,
            pkgrel: srcinfo.base.pkgrel,
            source,
        },
    }
}

/// The repositories are those of one .SRCINFO after the other, and there those of one architecture
/// after the other.
pub proof fn law_sources_one_by_one(
    srcinfos: Seq<AurSrcinfoView>,
    srcinfo: AurSrcinfoView,
    archs: Seq<Seq<Seq<char>>>,
    arch: Seq<Seq<char>>,
)
    ensures
        devel::all_sources(seq![]) == Seq::<DevelSourceView>::empty(),
        devel::all_sources(srcinfos.push(srcinfo)) == devel::all_sources(srcinfos)
            + devel::all_sources(seq![srcinfo]),
        devel::all_sources(seq![with_fields(srcinfo, seq![])]) == Seq::<DevelSourceView>::empty(),
        devel::all_sources(seq![with_fields(srcinfo, archs.push(arch))]) == devel::all_sources(
            seq![with_fields(srcinfo, archs)],
        ) + devel::all_sources(seq![with_fields(srcinfo, seq![arch])]),
{
    let each = |s: AurSrcinfoView| devel::package_sources(s);
    let none = Seq::<AurSrcinfoView>::empty();
    assert(none.map_values(each) =~= seq![]);
    assert(devel::all_sources(none) =~= seq![]);
    let parts = srcinfos.map_values(each);
    assert(srcinfos.push(srcinfo).map_values(each) =~= parts.push(each(srcinfo)));
    parts.push(each(srcinfo)).lemma_flatten_and_flatten_alt_are_equivalent();
    parts.lemma_flatten_and_flatten_alt_are_equivalent();
    assert(parts.push(each(srcinfo)).drop_last() =~= parts);
    lemma_sources_of_one(srcinfo);
    let (empty, old, new, both) = (
        with_fields(srcinfo, seq![]),
        with_fields(srcinfo, archs),
        with_fields(srcinfo, seq![arch]),
        with_fields(srcinfo, archs.push(arch)),
    );
    lemma_sources_of_one(empty);
    lemma_sources_of_one(old);
    lemma_sources_of_one(new);
    lemma_sources_of_one(both);
    assert(empty.base.source.flatten() =~= seq![]);
    let pick = |field: Seq<char>| devel::devel_source(srcinfo, field);
    lemma_same_pick(srcinfo, empty);
    lemma_same_pick(srcinfo, old);
    lemma_same_pick(srcinfo, new);
    lemma_same_pick(srcinfo, both);
    archs.push(arch).lemma_flatten_and_flatten_alt_are_equivalent();
    archs.lemma_flatten_and_flatten_alt_are_equivalent();
    assert(archs.push(arch).drop_last() =~= archs);
    lemma_flatten_one(arch);
    seqs::lemma_filter_map_add(archs.flatten(), arch, pick);
    assert(devel::all_sources(seq![empty]) =~= seq![]);
}

/// A sequence of one sequence is that one.
proof fn lemma_flatten_one<A>(part: Seq<A>)
    ensures
        seq![part].flatten() == part,
{
    seq![part].lemma_flatten_one_element();
}

/// The repositories of one .SRCINFO.
proof fn lemma_sources_of_one(srcinfo: AurSrcinfoView)
    ensures
        devel::all_sources(seq![srcinfo]) == devel::package_sources(srcinfo),
{
    let each = |s: AurSrcinfoView| devel::package_sources(s);
    assert(seq![srcinfo].map_values(each) =~= seq![each(srcinfo)]);
    lemma_flatten_one(each(srcinfo));
}

/// What a source field names does not depend on the other fields.
proof fn lemma_same_pick(a: AurSrcinfoView, b: AurSrcinfoView)
    requires
        b == with_fields(a, b.base.source),
    ensures
        (|field: Seq<char>| devel::devel_source(a, field)) == (|field: Seq<char>|
            devel::devel_source(b, field)),
{
    assert((|field: Seq<char>| devel::devel_source(a, field)) =~= (|field: Seq<char>|
        devel::devel_source(b, field)));
}

/// One more source field of an architecture adds the repository that it names, if it names one,
/// behind the others: with the name and the version of the package, and with the remote and the
/// branch in the field.
pub proof fn law_fields_one_by_one(
    srcinfo: AurSrcinfoView,
    fields: Seq<Seq<char>>,
    field: Seq<char>,
)
    ensures
        devel::all_sources(seq![with_fields(srcinfo, seq![Seq::empty()])]) == Seq::<
            DevelSourceView,
        >::empty(),
        devel::all_sources(seq![with_fields(srcinfo, seq![fields.push(field)])])
            == devel::all_sources(seq![with_fields(srcinfo, seq![fields])])
            + match parse::git_source(field) {
            Some(url) => seq![
                DevelSourceView {
                    pkgname: srcinfo.pkgname,
                    pkgver_cur: srcinfo.base.pkgver,
                    pkgrel_cur: srcinfo.base.pkgrel,
                    remote: url.remote,
                    branch: url.branch,
                },
            ],
            None => seq![],
        },
{
    let (empty, old, new) = (
        with_fields(srcinfo, seq![Seq::empty()]),
        with_fields(srcinfo, seq![fields]),
        with_fields(srcinfo, seq![fields.push(field)]),
    );
    lemma_sources_of_one(empty);
    lemma_sources_of_one(old);
    lemma_sources_of_one(new);
    lemma_same_pick(srcinfo, empty);
    lemma_same_pick(srcinfo, old);
    lemma_same_pick(srcinfo, new);
    lemma_flatten_one(Seq::<Seq<char>>::empty());
    lemma_flatten_one(fields);
    lemma_flatten_one(fields.push(field));
    assert(fields.push(field).drop_last() =~= fields);
    assert(devel::all_sources(seq![empty]) =~= seq![]);
    let added = match devel::devel_source(srcinfo, field) {
        Some(source) => seq![source],
        None => seq![],
    };
    assert(devel::all_sources(seq![new]) =~= devel::all_sources(seq![old]) + added);
}

/// One more package adds what is known of it behind what is known of the others, unless one of
/// them has its name.
pub proof fn law_latest_one_by_one(
    packages: Seq<PackageView>,
    package: PackageView,
    latest: Seq<DevelUpdateView>,
)
    ensures
        devel::latest_offline(seq![], latest) == Seq::<DevelUpdateView>::empty(),
        is_named(packages, package.pkgname) ==> devel::latest_offline(
            packages.push(package),
            latest,
        ) == devel::latest_offline(packages, latest),
        !is_named(packages, package.pkgname) ==> devel::latest_offline(
            packages.push(package),
            latest,
        ) == devel::latest_offline(packages, latest) + devel::latest_offline(
            seq![package],
            latest,
        ),
{
    let firsts = devel::first_packages(packages);
    lemma_is_named(packages, package.pkgname);
    assert(packages.push(package).drop_last() =~= packages);
    assert(firsts.push(package).drop_last() =~= firsts);
    lemma_latest_of_last(Seq::empty(), latest);
    lemma_latest_of_last(firsts.push(package), latest);
    lemma_latest_of_package(package, latest);
}

/// What is known of one package.
proof fn lemma_latest_of_package(package: PackageView, latest: Seq<DevelUpdateView>)
    ensures
        devel::latest_offline(seq![package], latest) == devel::package_latest(package, latest),
{
    let none = Seq::<PackageView>::empty();
    assert(seq![package].drop_last() =~= none);
    assert(aur::installed_as(none, package.pkgname) is None);
    assert(devel::first_packages(none) =~= none);
    assert(devel::first_packages(seq![package]) =~= none.push(package));
    let each = |p: PackageView| devel::package_latest(p, latest);
    assert(seq![package].map_values(each) =~= seq![each(package)]);
    lemma_flatten_one(each(package));
}

/// One more commit that is known adds an update of the package behind the others, with the
/// installed version, exactly if it has the name of the package.
pub proof fn law_answers_one_by_one(
    package: PackageView,
    latest: Seq<DevelUpdateView>,
    answer: DevelUpdateView,
)
    ensures
        devel::latest_offline(seq![package], seq![]) == Seq::<DevelUpdateView>::empty(),
        devel::latest_offline(seq![package], latest.push(answer)) == if answer.pkgname
            == package.pkgname {
            devel::latest_offline(seq![package], latest).push(
                DevelUpdateView {
                    pkgname: package.pkgname,
                    pkgver_cur: package.pkgver,
                    pkgrel_cur: package.pkgrel,
                    ref_id_new: answer.ref_id_new,
                },
            )
        } else {
            devel::latest_offline(seq![package], latest)
        },
{
    let mine = |u: DevelUpdateView| u.pkgname == package.pkgname;
    let fresh = |u: DevelUpdateView| devel::refreshed(package, u);
    lemma_latest_of_package(package, seq![]);
    lemma_latest_of_package(package, latest);
    lemma_latest_of_package(package, latest.push(answer));
    latest.lemma_filter_push(answer, mine);
    Seq::<DevelUpdateView>::empty().lemma_filter_len(mine);
    assert(devel::package_latest(package, seq![]) =~= seq![]);
    let kept = latest.filter(mine);
    assert(kept.push(answer).map_values(fresh) =~= kept.map_values(fresh).push(fresh(answer)));
}

} // verus!

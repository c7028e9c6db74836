//! What holds of reading what pacman, `checkupdates` and a .SRCINFO say.
use crate::outside;
use crate::pacman;
use crate::parse;
use crate::seqs;
use crate::text;
use crate::text_laws;
use crate::types;
use crate::types::{ErrorView, PackageUrlView, PackageView, UpdateView};
use vstd::prelude::*;
use vstd::utf8::*;

verus! {

/// A version, written from its pkgver and its pkgrel.
pub open spec fn version_text(pkgver: Seq<char>, pkgrel: Seq<char>) -> Seq<char> {
    pkgver + "-"@ + pkgrel
}

/// Reading a version gives back the pkgver and the pkgrel that it was written from.
pub proof fn law_version_reads_back(pkgver: Seq<char>, pkgrel: Seq<char>)
    requires
        !pkgrel.contains('-'),
    ensures
        parse::ver_and_rel(version_text(pkgver, pkgrel)) == Ok::<_, ErrorView>((pkgver, pkgrel)),
{
    reveal_strlit("-");
    assert("-"@ =~= seq!['-']);
    text::lemma_cut_last_at(pkgver, '-', pkgrel);
}

/// A version can be read exactly if it has a dash. What was read is what was written, and the
/// pkgrel has no dash.
pub proof fn law_version_is_its_parts(version: Seq<char>)
    ensures
        match parse::ver_and_rel(version) {
            Ok((pkgver, pkgrel)) => version == version_text(pkgver, pkgrel) && !pkgrel.contains(
                '-',
            ),
            Err(e) => !version.contains('-') && e == ErrorView::ParseErrorPkgverPkgrel(version),
        },
{
    reveal_strlit("-");
    assert("-"@ =~= seq!['-']);
    text::lemma_last_position(version, "-"@);
    match text::last_position(version, "-"@) {
        Some(i) => {
            text::lemma_char_occurs_at(version, '-', i);
            let pkgrel = version.skip(i + 1);
            assert(version =~= version_text(version.take(i), pkgrel));
            assert forall|k: int| 0 <= k < pkgrel.len() implies pkgrel[k] != '-' by {
                text::lemma_char_occurs_at(version, '-', i + 1 + k);
            }
        },
        None => {
            assert forall|k: int| 0 <= k < version.len() implies version[k] != '-' by {
                text::lemma_char_occurs_at(version, '-', k);
                assert(!text::occurs_at(version, "-"@, k));
            }
        },
    }
}

/// A line of `pacman -Qm`, written from a package.
pub open spec fn pacman_qm_text(package: PackageView) -> Seq<char> {
    package.pkgname + " "@ + version_text(package.pkgver, package.pkgrel)
}

/// Reading a line of `pacman -Qm` gives back the package that it was written from.
pub proof fn law_package_reads_back(package: PackageView)
    requires
        !package.pkgname.contains(' '),
        !package.pkgrel.contains('-'),
    ensures
        parse::pacman_qm(pacman_qm_text(package)) == Ok::<_, ErrorView>(package),
{
    reveal_strlit(" ");
    assert(" "@ =~= seq![' ']);
    text::lemma_cut_at(package.pkgname, " "@, version_text(package.pkgver, package.pkgrel));
    law_version_reads_back(package.pkgver, package.pkgrel);
}

/// A package that was read from a line of `pacman -Qm` is what the line says, and the name is the
/// one by which it would have been ignored.
pub proof fn law_package_is_its_line(line: Seq<char>)
    ensures
        parse::pacman_qm(line) matches Ok(package) ==> line == pacman_qm_text(package)
            && package.pkgname == pacman::line_pkgname(line),
{
    reveal_strlit(" ");
    assert(" "@ =~= seq![' ']);
    text::lemma_position(line, " "@);
    if let Some(i) = text::position(line, " "@) {
        text::lemma_char_occurs_at(line, ' ', i);
        let rest = line.skip(i + 1);
        law_version_is_its_parts(rest);
        assert(line =~= line.take(i) + " "@ + rest);
    }
}

/// A line of `checkupdates`, written from an update.
pub open spec fn checkupdates_text(update: UpdateView) -> Seq<char> {
    update.pkgname + " "@ + (version_text(update.pkgver_cur, update.pkgrel_cur) + " "@ + ("->"@
        + " "@ + version_text(update.pkgver_new, update.pkgrel_new)))
}

/// Whether the words of an update, and the parts of its versions, can be told apart in its line.
pub open spec fn words_are_clear(update: UpdateView) -> bool {
    &&& !update.pkgname.contains(' ')
    &&& !update.pkgver_cur.contains(' ')
    &&& !update.pkgrel_cur.contains(' ') && !update.pkgrel_cur.contains('-')
    &&& !update.pkgver_new.contains(' ')
    &&& !update.pkgrel_new.contains(' ') && !update.pkgrel_new.contains('-')
}

/// Reading a line of `checkupdates` gives back the update that it was written from.
pub proof fn law_update_reads_back(update: UpdateView)
    requires
        words_are_clear(update),
    ensures
        parse::checkupdates_line(checkupdates_text(update)) == Ok::<_, ErrorView>(update),
{
    reveal_strlit(" ");
    reveal_strlit("-");
    reveal_strlit("->");
    assert(" "@ =~= seq![' ']);
    assert("-"@ =~= seq!['-']);
    let cur = version_text(update.pkgver_cur, update.pkgrel_cur);
    let new = version_text(update.pkgver_new, update.pkgrel_new);
    assert(!cur.contains(' ')) by {
        assert forall|k: int| 0 <= k < cur.len() implies cur[k] != ' ' by {
            let n = update.pkgver_cur.len();
            if k < n {
                assert(cur[k] == update.pkgver_cur[k]);
            } else if k > n {
                assert(cur[k] == update.pkgrel_cur[k - n - 1]);
            }
        }
    }
    assert(!new.contains(' ')) by {
        assert forall|k: int| 0 <= k < new.len() implies new[k] != ' ' by {
            let n = update.pkgver_new.len();
            if k < n {
                assert(new[k] == update.pkgver_new[k]);
            } else if k > n {
                assert(new[k] == update.pkgrel_new[k - n - 1]);
            }
        }
    }
    let tail = "->"@ + " "@ + new;
    text::lemma_pieces_at(update.pkgname, ' ', cur + " "@ + tail);
    text::lemma_pieces_at(cur, ' ', tail);
    text::lemma_pieces_at("->"@, ' ', new);
    text::lemma_no_cut(new, " "@);
    let words = text::pieces(checkupdates_text(update), " "@);
    assert(text::pieces(new, " "@) == seq![new]);
    assert(words =~= seq![update.pkgname, cur, "->"@, new]);
    law_version_reads_back(update.pkgver_cur, update.pkgrel_cur);
    law_version_reads_back(update.pkgver_new, update.pkgrel_new);
}

/// A source field, written from the protocol and the location of a git repository and from what
/// the source is pinned to.
pub open spec fn source_text(
    protocol: Seq<char>,
    location: Seq<char>,
    key: Seq<char>,
    value: Seq<char>,
) -> Seq<char> {
    "git+"@ + protocol + "://"@ + (location + "#"@ + (key + "="@ + value))
}

/// Whether the parts of a source field can be told apart in it.
pub open spec fn parts_are_clear(
    protocol: Seq<char>,
    location: Seq<char>,
    key: Seq<char>,
    value: Seq<char>,
) -> bool {
    &&& !protocol.contains(':') && !protocol.contains('+')
    &&& !location.contains('#') && !location.contains('?')
    &&& !key.contains('?') && !key.contains('=')
    &&& !value.contains('?')
    &&& !text::occurs(source_text(protocol, location, key, value), "::"@)
}

/// How a source field is taken apart.
proof fn lemma_source_parts(
    protocol: Seq<char>,
    location: Seq<char>,
    key: Seq<char>,
    value: Seq<char>,
)
    requires
        parts_are_clear(protocol, location, key, value),
    ensures
        ({
            let url = source_text(protocol, location, key, value);
            let pin = key + "="@ + value;
            let rest = location + "#"@ + pin;
            &&& parse::source_url(url) == url
            &&& "git"@.is_prefix_of(url)
            &&& text::cut(url, "://"@) == Some(("git+"@ + protocol, rest))
            &&& parse::scheme_protocol("git+"@ + protocol) == protocol
            &&& text::cut(rest, "#"@) == Some((location, pin))
            &&& text::before(location, "?"@) == location
            &&& parse::fragment_pin(pin) == (key, Some(value))
        }),
{
    reveal_strlit("git");
    reveal_strlit("git+");
    reveal_strlit("+");
    reveal_strlit("::");
    reveal_strlit("://");
    reveal_strlit("#");
    reveal_strlit("?");
    reveal_strlit("=");
    let url = source_text(protocol, location, key, value);
    let scheme = "git+"@ + protocol;
    let pin = key + "="@ + value;
    let rest = location + "#"@ + pin;
    text::lemma_position(url, "::"@);
    assert(url.take(3) =~= "git"@);
    assert(!scheme.contains(':')) by {
        assert forall|k: int| 0 <= k < scheme.len() implies scheme[k] != ':' by {
            if k >= 4 {
                assert(scheme[k] == protocol[k - 4]);
            }
        }
    }
    text::lemma_cut_at(scheme, "://"@, rest);
    assert("+"@ =~= seq!['+']);
    assert(scheme =~= "git"@ + seq!['+'] + protocol);
    text::lemma_cut_last_at("git"@, '+', protocol);
    text::lemma_cut_at(location, "#"@, pin);
    text::lemma_no_cut(location, "?"@);
    assert(!pin.contains('?')) by {
        assert forall|k: int| 0 <= k < pin.len() implies pin[k] != '?' by {
            if k < key.len() {
                assert(pin[k] == key[k]);
            } else if k > key.len() {
                assert(pin[k] == value[k - key.len() - 1]);
            }
        }
    }
    text::lemma_no_cut(pin, "?"@);
    text::lemma_cut_at(key, "="@, value);
}

/// Reading a source field that follows a branch gives back the repository and the branch that it
/// was written from.
pub proof fn law_branch_source_reads_back(
    protocol: Seq<char>,
    location: Seq<char>,
    branch: Seq<char>,
)
    requires
        parts_are_clear(protocol, location, "branch"@, branch),
    ensures
        parse::git_source(source_text(protocol, location, "branch"@, branch)) == Some(
            PackageUrlView {
                remote: protocol + "://"@ + location,
                protocol,
                branch: Some(branch),
            },
        ),
{
    reveal_strlit("branch");
    reveal_strlit("commit");
    reveal_strlit("tag");
    lemma_source_parts(protocol, location, "branch"@, branch);
    assert("branch"@[0] != "commit"@[0] && "branch"@[0] != "tag"@[0]);
}

/// A source field that is pinned to a commit or a tag names no repository to follow.
pub proof fn law_pinned_source_is_left_out(
    protocol: Seq<char>,
    location: Seq<char>,
    key: Seq<char>,
    value: Seq<char>,
)
    requires
        parts_are_clear(protocol, location, key, value),
        key == "commit"@ || key == "tag"@,
    ensures
        parse::git_source(source_text(protocol, location, key, value)) is None,
{
    lemma_source_parts(protocol, location, key, value);
}

/// A name in front of a source field changes nothing of what it names.
pub proof fn law_source_name_is_skipped(name: Seq<char>, url: Seq<char>)
    requires
        !name.contains(':'),
        !text::occurs(url, "::"@),
    ensures
        parse::git_source(name + "::"@ + url) == parse::git_source(url),
{
    reveal_strlit("::");
    text::lemma_cut_at(name, "::"@, url);
    text::lemma_position(url, "::"@);
}

/// A source field names a repository only if its URL begins with `git`, and the remote is then the
/// protocol and a location.
pub proof fn law_remote_has_its_protocol(source: Seq<char>)
    ensures
        parse::git_source(source) matches Some(url) ==> {
            &&& "git"@.is_prefix_of(parse::source_url(source))
            &&& (url.protocol + "://"@).is_prefix_of(url.remote)
        },
{
    if let Some(url) = parse::git_source(source) {
        let n = (url.protocol + "://"@).len() as int;
        assert(url.remote.take(n) =~= url.protocol + "://"@);
    }
}

/// A list of results is all of their values, or the first failure.
pub proof fn law_collect_all_or_first_failure<T>(results: Seq<Result<T, ErrorView>>)
    ensures
        match types::collect(results) {
            Ok(values) => values.len() == results.len() && forall|i: int|
                0 <= i < results.len() ==> #[trigger] results[i] == Ok::<T, ErrorView>(values[i]),
            Err(e) => exists|i: int|
                0 <= i < results.len() && #[trigger] results[i] == Err::<T, ErrorView>(e) && forall|
                    j: int,
                |
                    0 <= j < i ==> (#[trigger] results[j]) is Ok,
        },
    decreases results.len(),
{
    if results.len() > 0 {
        let init = results.drop_last();
        law_collect_all_or_first_failure(init);
        match types::collect(init) {
            Ok(_) => {
                assert forall|j: int| 0 <= j < results.len() - 1 implies (
                #[trigger] results[j]) is Ok by {
                    assert(init[j] == results[j]);
                }
                assert(results[results.len() - 1] == results.last());
                assert forall|i: int|
                    types::collect(results) is Ok && 0 <= i < results.len() implies
                    #[trigger] results[i] == Ok::<T, ErrorView>(
                    types::collect(results)->Ok_0[i],
                ) by {
                    if i < results.len() - 1 {
                        assert(init[i] == results[i]);
                    }
                }
            },
            Err(e) => {
                let i = choose|i: int|
                    0 <= i < init.len() && #[trigger] init[i] == Err::<T, ErrorView>(e) && forall|
                        j: int,
                    |
                        0 <= j < i ==> (#[trigger] init[j]) is Ok;
                assert(results[i] == init[i]);
                assert forall|j: int| 0 <= j < i implies (#[trigger] results[j]) is Ok by {
                    assert(init[j] == results[j]);
                }
            },
        }
    }
}

/// The output of a command, written from its lines.
pub open spec fn output_text(lines: Seq<Seq<char>>) -> Seq<char>
    decreases lines.len(),
{
    if lines.len() == 0 {
        seq![]
    } else {
        lines[0] + seq!['\n'] + output_text(lines.drop_first())
    }
}

/// Whether a text can be a line.
pub open spec fn is_line(line: Seq<char>) -> bool {
    !line.contains('\n') && text::without_cr(line) == line
}

/// Reading an output gives back the lines that it was written from.
pub proof fn law_lines_read_back(lines: Seq<Seq<char>>)
    requires
        forall|i: int| 0 <= i < lines.len() ==> is_line(#[trigger] lines[i]),
    ensures
        text::lines_of(output_text(lines)) == lines,
    decreases lines.len(),
{
    if lines.len() == 0 {
        text::lemma_position(output_text(lines), seq!['\n']);
        assert(text::lines_of(output_text(lines)) =~= lines);
    } else {
        let rest = lines.drop_first();
        assert(is_line(lines[0]));
        assert forall|i: int| 0 <= i < rest.len() implies is_line(#[trigger] rest[i]) by {
            assert(rest[i] == lines[i + 1]);
        }
        law_lines_read_back(rest);
        text::lemma_cut_at(lines[0], seq!['\n'], output_text(rest));
        text::lemma_position(output_text(lines), seq!['\n']);
        assert(text::lines_of(output_text(lines)) =~= seq![lines[0]] + rest);
        assert(lines =~= seq![lines[0]] + rest);
    }
}

/// Whether an update can be told from its line.
pub open spec fn update_is_clear(update: UpdateView) -> bool {
    words_are_clear(update) && is_line(checkupdates_text(update))
}

/// Reading the output of `checkupdates` gives back the updates that it was written from.
pub proof fn law_updates_read_back(updates: Seq<UpdateView>)
    requires
        forall|i: int| 0 <= i < updates.len() ==> update_is_clear(#[trigger] updates[i]),
    ensures
        pacman::listed_updates(
            output_text(updates.map_values(|u: UpdateView| checkupdates_text(u))),
        ) == Ok::<Seq<UpdateView>, ErrorView>(updates),
{
    let lines = updates.map_values(|u: UpdateView| checkupdates_text(u));
    assert forall|i: int| 0 <= i < lines.len() implies is_line(#[trigger] lines[i]) by {
        assert(update_is_clear(updates[i]));
    }
    law_lines_read_back(lines);
    let results = lines.map_values(|line: Seq<char>| parse::checkupdates_line(line));
    law_collect_all_or_first_failure(results);
    assert forall|i: int| 0 <= i < results.len() implies #[trigger] results[i] == Ok::<
        UpdateView,
        ErrorView,
    >(updates[i]) by {
        assert(update_is_clear(updates[i]));
        law_update_reads_back(updates[i]);
    }
    match types::collect(results) {
        Ok(values) => {
            assert forall|i: int| 0 <= i < values.len() implies values[i] == updates[i] by {
                assert(results[i] == Ok::<UpdateView, ErrorView>(values[i]));
            }
            assert(values =~= updates);
        },
        Err(e) => {
            let i = choose|i: int|
                0 <= i < results.len() && #[trigger] results[i] == Err::<UpdateView, ErrorView>(e);
            assert(results[i] == Ok::<UpdateView, ErrorView>(updates[i]));
        },
    }
}

/// Whether a package can be told from its line.
pub open spec fn package_is_clear(package: PackageView) -> bool {
    &&& !package.pkgname.contains(' ')
    &&& !package.pkgrel.contains('-')
    &&& is_line(pacman_qm_text(package))
}

/// Reading the output of `pacman -Qm` gives back the packages that it was written from, without
/// the ignored ones.
pub proof fn law_packages_read_back(ignored: Seq<Seq<char>>, packages: Seq<PackageView>)
    requires
        forall|i: int| 0 <= i < packages.len() ==> package_is_clear(#[trigger] packages[i]),
    ensures
        pacman::listed_packages(
            ignored,
            output_text(packages.map_values(|p: PackageView| pacman_qm_text(p))),
        ) == Ok::<Seq<PackageView>, ErrorView>(
            packages.filter(|p: PackageView| !ignored.contains(p.pkgname)),
        ),
{
    let lines = packages.map_values(|p: PackageView| pacman_qm_text(p));
    assert forall|i: int| 0 <= i < lines.len() implies is_line(#[trigger] lines[i]) by {
        assert(package_is_clear(packages[i]));
    }
    law_lines_read_back(lines);
    lemma_packages_of_lines(ignored, packages);
}

/// What is read of the lines of packages.
proof fn lemma_packages_of_lines(ignored: Seq<Seq<char>>, packages: Seq<PackageView>)
    requires
        forall|i: int| 0 <= i < packages.len() ==> package_is_clear(#[trigger] packages[i]),
    ensures
        types::collect(
            packages.map_values(|p: PackageView| pacman_qm_text(p)).filter(
                |line: Seq<char>| !ignored.contains(pacman::line_pkgname(line)),
            ).map_values(|line: Seq<char>| parse::pacman_qm(line)),
        ) == Ok::<Seq<PackageView>, ErrorView>(
            packages.filter(|p: PackageView| !ignored.contains(p.pkgname)),
        ),
    decreases packages.len(),
{
    let write = |p: PackageView| pacman_qm_text(p);
    let keep_line = |line: Seq<char>| !ignored.contains(pacman::line_pkgname(line));
    let keep = |p: PackageView| !ignored.contains(p.pkgname);
    let read = |line: Seq<char>| parse::pacman_qm(line);
    if packages.len() == 0 {
        packages.lemma_filter_len(keep);
        packages.map_values(write).lemma_filter_len(keep_line);
        assert(packages.filter(keep) =~= seq![]);
        assert(packages.map_values(write).filter(keep_line).map_values(read) =~= seq![]);
    } else {
        let init = packages.drop_last();
        let last = packages.last();
        assert forall|i: int| 0 <= i < init.len() implies package_is_clear(#[trigger] init[i]) by {
            assert(init[i] == packages[i]);
        }
        lemma_packages_of_lines(ignored, init);
        assert(packages[packages.len() - 1] == last);
        law_package_reads_back(last);
        law_package_is_its_line(write(last));
        assert(packages =~= init.push(last));
        assert(packages.map_values(write) =~= init.map_values(write).push(write(last)));
        init.lemma_filter_push(last, keep);
        init.map_values(write).lemma_filter_push(write(last), keep_line);
        let kept = init.map_values(write).filter(keep_line);
        if keep(last) {
            let results = kept.push(write(last)).map_values(read);
            assert(results.drop_last() =~= kept.map_values(read));
        }
    }
}

/// No ignored package is among the AUR packages.
pub proof fn law_ignored_packages_are_left_out(ignored: Seq<Seq<char>>, output: Seq<char>)
    ensures
        pacman::listed_packages(ignored, output) matches Ok(packages) ==> forall|i: int|
            0 <= i < packages.len() ==> !ignored.contains((#[trigger] packages[i]).pkgname),
{
    let keep = |line: Seq<char>| !ignored.contains(pacman::line_pkgname(line));
    let kept = text::lines_of(output).filter(keep);
    let results = kept.map_values(|line: Seq<char>| parse::pacman_qm(line));
    law_collect_all_or_first_failure(results);
    if let Ok(packages) = pacman::listed_packages(ignored, output) {
        assert forall|i: int| 0 <= i < packages.len() implies !ignored.contains(
            (#[trigger] packages[i]).pkgname,
        ) by {
            assert(results[i] == parse::pacman_qm(kept[i]));
            text::lines_of(output).lemma_filter_pred(keep, i);
            law_package_is_its_line(kept[i]);
        }
    }
}

/// Every package that is listed and not ignored is among the AUR packages.
pub proof fn law_other_packages_are_kept(ignored: Seq<Seq<char>>, output: Seq<char>, i: int)
    requires
        0 <= i < text::lines_of(output).len(),
        !ignored.contains(pacman::line_pkgname(text::lines_of(output)[i])),
    ensures
        pacman::listed_packages(ignored, output) matches Ok(packages) ==> exists|k: int|
            0 <= k < packages.len() && parse::pacman_qm(text::lines_of(output)[i]) == Ok::<
                PackageView,
                ErrorView,
            >(#[trigger] packages[k]),
{
    let keep = |line: Seq<char>| !ignored.contains(pacman::line_pkgname(line));
    let lines = text::lines_of(output);
    let kept = lines.filter(keep);
    let results = kept.map_values(|line: Seq<char>| parse::pacman_qm(line));
    law_collect_all_or_first_failure(results);
    lines.lemma_filter_contains(keep, i);
    let k = choose|k: int| 0 <= k < kept.len() && kept[k] == lines[i];
    if let Ok(packages) = pacman::listed_packages(ignored, output) {
        assert(results[k] == parse::pacman_qm(kept[k]));
        assert(results[k] == Ok::<PackageView, ErrorView>(packages[k]));
    }
}

/// A devel package is one of the AUR packages.
pub proof fn law_devel_packages_are_aur_packages(packages: Seq<PackageView>, package: PackageView)
    ensures
        pacman::devel_packages(packages).contains(package) <==> packages.contains(package)
            && pacman::is_devel(package),
{
    seqs::lemma_filter_is(packages, |p: PackageView| pacman::is_devel(p), package);
}

/// Whether a name ends in `-git`, in capital or small letters.
pub open spec fn ends_in_git(name: Seq<char>) -> bool {
    let n = name.len() as int;
    &&& n >= 4
    &&& name[n - 4] == '-'
    &&& name[n - 3] == 'g' || name[n - 3] == 'G'
    &&& name[n - 2] == 'i' || name[n - 2] == 'I'
    &&& name[n - 1] == 't' || name[n - 1] == 'T'
}

/// A name in lowercase is that of a devel package exactly if it is something and then `-git`.
pub proof fn law_devel_suffix_ends_the_name(name: Seq<char>)
    ensures
        pacman::ends_as_devel(name) <==> exists|stem: Seq<char>|
            name == #[trigger] (stem + "-git"@),
{
    reveal_strlit("-git");
    let suffix = "-git"@;
    assert(types::DEVEL_SUFFIXES[0]@ == suffix);
    if pacman::ends_as_devel(name) {
        assert(suffix.is_suffix_of(name));
        let stem = name.take(name.len() - 4);
        assert(name =~= stem + suffix);
    }
    if exists|stem: Seq<char>| name == #[trigger] (stem + suffix) {
        let stem = choose|stem: Seq<char>| name == #[trigger] (stem + suffix);
        assert(name.subrange(name.len() - 4, name.len() as int) =~= suffix);
        assert(types::DEVEL_SUFFIXES[0]@.is_suffix_of(name));
    }
}

/// A package with a name in ASCII is a devel package exactly if its name ends in `-git`, in
/// capital or small letters, whatever stands before that.
pub proof fn law_devel_package_ends_in_git(package: PackageView)
    requires
        is_ascii_chars(package.pkgname),
    ensures
        pacman::is_devel(package) <==> ends_in_git(package.pkgname),
{
    let name = package.pkgname;
    let lower = outside::ascii_lowercase_of(name);
    let suffix = "-git"@;
    let n = name.len() as int;
    reveal_strlit("-git");
    law_devel_suffix_ends_the_name(lower);
    assert(lower.len() == n);
    assert forall|i: int| 0 <= i < n implies {
        let (c, d) = (name[i], #[trigger] lower[i]);
        &&& d == '-' <==> c == '-'
        &&& d == 'g' <==> c == 'g' || c == 'G'
        &&& d == 'i' <==> c == 'i' || c == 'I'
        &&& d == 't' <==> c == 't' || c == 'T'
    } by {
        assert(lower[i] == outside::ascii_lowercase(name[i]));
    }
    if pacman::is_devel(package) {
        let stem = choose|stem: Seq<char>| lower == #[trigger] (stem + suffix);
        assert(lower[n - 4] == '-' && lower[n - 3] == 'g' && lower[n - 2] == 'i' && lower[n - 1]
            == 't');
    }
    if ends_in_git(name) {
        assert(lower[n - 4] == '-' && lower[n - 3] == 'g' && lower[n - 2] == 'i' && lower[n - 1]
            == 't');
        assert(lower =~= lower.take(n - 4) + suffix);
    }
}

/// A package with another name is a devel package exactly if its name, in lowercase, is something
/// and then `-git`.
pub proof fn law_other_devel_package_ends_in_git(package: PackageView)
    requires
        !is_ascii_chars(package.pkgname),
    ensures
        pacman::is_devel(package) <==> exists|stem: Seq<char>|
            outside::lowercase_of(package.pkgname) == #[trigger] (stem + "-git"@),
{
    law_devel_suffix_ends_the_name(outside::lowercase_of(package.pkgname));
}

/// Each package is looked at for itself: one more is listed, behind the others, exactly if it is a
/// devel package.
pub proof fn law_devel_packages_one_by_one(packages: Seq<PackageView>, package: PackageView)
    ensures
        pacman::devel_packages(seq![]) == Seq::<PackageView>::empty(),
        pacman::devel_packages(packages.push(package)) == if pacman::is_devel(package) {
            pacman::devel_packages(packages).push(package)
        } else {
            pacman::devel_packages(packages)
        },
{
    let keep = |p: PackageView| pacman::is_devel(p);
    packages.lemma_filter_push(package, keep);
    Seq::<PackageView>::empty().lemma_filter_len(keep);
    assert(pacman::devel_packages(seq![]) =~= Seq::<PackageView>::empty());
}

/// A line of `pacman -Qm` without a space is an error that gives the line, and one without a dash
/// behind the first space is an error that gives what stands behind it.
pub proof fn law_bad_package_line_is_an_error(name: Seq<char>, rest: Seq<char>)
    requires
        !name.contains(' '),
        !rest.contains('-'),
    ensures
        parse::pacman_qm(name) == Err::<PackageView, _>(ErrorView::ParseErrorPacman(name)),
        parse::pacman_qm(name + seq![' '] + rest) == Err::<PackageView, _>(
            ErrorView::ParseErrorPkgverPkgrel(rest),
        ),
{
    reveal_strlit(" ");
    reveal_strlit("-");
    assert(" "@ =~= seq![' ']);
    text::lemma_no_cut(name, " "@);
    text::lemma_cut_at(name, " "@, rest);
    text::lemma_no_cut(rest, "-"@);
}

/// A line of `checkupdates` is read by its words, of which a space stands between every two: the
/// first is the name, the second the installed version and the fourth the newest one. What the
/// others are does not matter. A word that is missing is an error that gives the line, and a
/// version without a dash is an error that gives the version, whichever comes first.
pub proof fn law_update_is_read_by_its_words(words: Seq<Seq<char>>)
    requires
        words.len() > 0,
        forall|i: int| 0 <= i < words.len() ==> !(#[trigger] words[i]).contains(' '),
    ensures
        ({
            let line = text_laws::with_between(words, ' ');
            let result = parse::checkupdates_line(line);
            &&& words.len() == 1 ==> result == Err::<UpdateView, _>(
                ErrorView::ParseErrorCheckUpdates(line),
            )
            &&& words.len() >= 2 && !words[1].contains('-') ==> result == Err::<UpdateView, _>(
                ErrorView::ParseErrorPkgverPkgrel(words[1]),
            )
            &&& 2 <= words.len() < 4 && words[1].contains('-') ==> result == Err::<UpdateView, _>(
                ErrorView::ParseErrorCheckUpdates(line),
            )
            &&& words.len() >= 4 && words[1].contains('-') && !words[3].contains('-') ==> result
                == Err::<UpdateView, _>(ErrorView::ParseErrorPkgverPkgrel(words[3]))
            &&& words.len() >= 4 && words[1].contains('-') && words[3].contains('-') ==> {
                &&& result matches Ok(update)
                &&& update.pkgname == words[0]
                &&& words[1] == update.pkgver_cur + seq!['-'] + update.pkgrel_cur
                &&& !update.pkgrel_cur.contains('-')
                &&& words[3] == update.pkgver_new + seq!['-'] + update.pkgrel_new
                &&& !update.pkgrel_new.contains('-')
            }
        }),
{
    reveal_strlit(" ");
    reveal_strlit("-");
    assert(" "@ =~= seq![' ']);
    assert("-"@ =~= seq!['-']);
    text_laws::law_pieces_read_back(words, ' ');
    if words.len() >= 2 {
        lemma_version_has_a_dash(words[1]);
    }
    if words.len() >= 4 {
        lemma_version_has_a_dash(words[3]);
    }
}

/// A version can be read exactly if it has a dash.
proof fn lemma_version_has_a_dash(version: Seq<char>)
    ensures
        match parse::ver_and_rel(version) {
            Ok((pkgver, pkgrel)) => version == pkgver + seq!['-'] + pkgrel && !pkgrel.contains('-')
                && version.contains('-'),
            Err(e) => !version.contains('-') && e == ErrorView::ParseErrorPkgverPkgrel(version),
        },
{
    reveal_strlit("-");
    assert("-"@ =~= seq!['-']);
    law_version_is_its_parts(version);
    if let Ok((pkgver, pkgrel)) = parse::ver_and_rel(version) {
        assert(version[pkgver.len() as int] == '-');
    }
}

/// What begins a list of results.
proof fn lemma_collect_first<T>(first: Result<T, ErrorView>, rest: Seq<Result<T, ErrorView>>)
    ensures
        types::collect(seq![first] + rest) == match first {
            Err(e) => Err(e),
            Ok(v) => match types::collect(rest) {
                Ok(vs) => Ok(seq![v] + vs),
                Err(e) => Err(e),
            },
        },
    decreases rest.len(),
{
    let all = seq![first] + rest;
    if rest.len() == 0 {
        assert(all.drop_last() =~= seq![]);
        assert(all.last() == first);
        let none = Seq::<Result<T, ErrorView>>::empty();
        assert(rest =~= none);
        assert(types::collect(none) == Ok::<Seq<T>, ErrorView>(seq![]));
        assert(types::collect(all.drop_last()) == Ok::<Seq<T>, ErrorView>(seq![]));
        if let Ok(v) = first {
            assert(Seq::<T>::empty().push(v) =~= seq![v] + Seq::<T>::empty());
        }
    } else {
        let init = rest.drop_last();
        lemma_collect_first(first, init);
        assert(all.drop_last() =~= seq![first] + init);
        assert(all.last() == rest.last());
        if let Ok(v) = first {
            if let Ok(vs) = types::collect(init) {
                if let Ok(last) = rest.last() {
                    assert((seq![v] + vs).push(last) =~= seq![v] + vs.push(last));
                }
            }
        }
    }
}

/// The output of `checkupdates` is read line by line: the first line that cannot be read is the
/// error, and else there is an update for each.
pub proof fn law_updates_one_by_one(line: Seq<char>, end: Seq<char>, rest: Seq<char>)
    requires
        text_laws::is_ended(line, end, rest),
    ensures
        pacman::listed_updates(seq![]) == Ok::<_, ErrorView>(Seq::<UpdateView>::empty()),
        pacman::listed_updates(line + end + rest) == match parse::checkupdates_line(line) {
            Err(e) => Err(e),
            Ok(update) => match pacman::listed_updates(rest) {
                Err(e) => Err(e),
                Ok(updates) => Ok(seq![update] + updates),
            },
        },
{
    let read = |l: Seq<char>| parse::checkupdates_line(l);
    text_laws::law_lines_one_by_one(line, end, rest);
    let lines = text::lines_of(rest);
    assert((seq![line] + lines).map_values(read) =~= seq![read(line)] + lines.map_values(read));
    lemma_collect_first(read(line), lines.map_values(read));
    assert(Seq::<Seq<char>>::empty().map_values(read) =~= seq![]);
}

/// The output of `pacman -Qm` is read line by line: a line of an ignored package is passed over,
/// the first other line that cannot be read is the error, and else there is a package for each. The
/// name is what stands before the first space, or all of a line without one.
pub proof fn law_packages_one_by_one(
    ignored: Seq<Seq<char>>,
    name: Seq<char>,
    version: Option<Seq<char>>,
    end: Seq<char>,
    rest: Seq<char>,
)
    requires
        !name.contains(' '),
        text_laws::is_ended(package_line(name, version), end, rest),
    ensures
        pacman::listed_packages(ignored, seq![]) == Ok::<_, ErrorView>(
            Seq::<PackageView>::empty(),
        ),
        pacman::listed_packages(ignored, package_line(name, version) + end + rest)
            == if ignored.contains(name) {
            pacman::listed_packages(ignored, rest)
        } else {
            match parse::pacman_qm(package_line(name, version)) {
                Err(e) => Err(e),
                Ok(package) => match pacman::listed_packages(ignored, rest) {
                    Err(e) => Err(e),
                    Ok(packages) => Ok(seq![package] + packages),
                },
            }
        },
{
    let line = package_line(name, version);
    let keep = |l: Seq<char>| !ignored.contains(pacman::line_pkgname(l));
    let read = |l: Seq<char>| parse::pacman_qm(l);
    reveal_strlit(" ");
    assert(" "@ =~= seq![' ']);
    match version {
        Some(v) => text::lemma_cut_at(name, " "@, v),
        None => text::lemma_no_cut(name, " "@),
    }
    assert(pacman::line_pkgname(line) == name);
    text_laws::law_lines_one_by_one(line, end, rest);
    let lines = text::lines_of(rest);
    let kept = lines.filter(keep);
    Seq::filter_distributes_over_add(seq![line], lines, keep);
    Seq::<Seq<char>>::empty().lemma_filter_push(line, keep);
    assert(seq![line] =~= Seq::<Seq<char>>::empty().push(line));
    Seq::<Seq<char>>::empty().lemma_filter_len(keep);
    assert(Seq::<Seq<char>>::empty().filter(keep) =~= seq![]);
    assert(Seq::<Seq<char>>::empty().map_values(read) =~= seq![]);
    if keep(line) {
        assert((seq![line] + lines).filter(keep) =~= seq![line] + kept);
        assert((seq![line] + kept).map_values(read) =~= seq![read(line)] + kept.map_values(read));
        lemma_collect_first(read(line), kept.map_values(read));
    } else {
        assert((seq![line] + lines).filter(keep) =~= kept);
    }
}

/// A line with the name of a package and, behind a space, its version.
pub open spec fn package_line(name: Seq<char>, version: Option<Seq<char>>) -> Seq<char> {
    match version {
        Some(v) => name + seq![' '] + v,
        None => name,
    }
}

/// A part of a text with the mark that stands before it, or nothing.
pub open spec fn marked(mark: Seq<char>, part: Option<Seq<char>>) -> Seq<char> {
    match part {
        Some(p) => mark + p,
        None => seq![],
    }
}

/// The parts that a source field can be written from.
pub struct SourceParts {
    /// What stands before two colons.
    pub name: Option<Seq<char>>,
    /// What stands before a plus sign.
    pub kind: Option<Seq<char>>,
    pub protocol: Seq<char>,
    pub location: Seq<char>,
    /// What stands behind a question mark.
    pub query: Option<Seq<char>>,
    /// What stands behind a number sign.
    pub fragment: Option<FragmentParts>,
}

/// The parts that a fragment can be written from.
pub struct FragmentParts {
    pub key: Seq<char>,
    /// What stands behind an equals sign.
    pub value: Option<Seq<char>>,
    /// What stands behind a question mark.
    pub query: Option<Seq<char>>,
}

impl FragmentParts {
    /// The key and the value.
    pub open spec fn pin(self) -> Seq<char> {
        self.key + marked(seq!['='], self.value)
    }

    /// The fragment.
    pub open spec fn text(self) -> Seq<char> {
        self.pin() + marked(seq!['?'], self.query)
    }

    /// Whether the parts can be told apart.
    pub open spec fn is_clear(self) -> bool {
        !self.key.contains('=') && !self.pin().contains('?')
    }
}

impl SourceParts {
    /// What stands before the colon and the two slashes.
    pub open spec fn scheme(self) -> Seq<char> {
        match self.kind {
            Some(kind) => kind + seq!['+'] + self.protocol,
            None => self.protocol,
        }
    }

    /// What stands behind the colon and the two slashes.
    pub open spec fn rest(self) -> Seq<char> {
        self.location + marked(seq!['?'], self.query) + match self.fragment {
            Some(fragment) => seq!['#'] + fragment.text(),
            None => seq![],
        }
    }

    /// The URL.
    pub open spec fn url(self) -> Seq<char> {
        self.scheme() + seq![':', '/', '/'] + self.rest()
    }

    /// The source field.
    pub open spec fn text(self) -> Seq<char> {
        match self.name {
            Some(name) => name + seq![':', ':'] + self.url(),
            None => self.url(),
        }
    }

    /// Whether the parts can be told apart.
    pub open spec fn is_clear(self) -> bool {
        &&& match self.name {
            Some(name) => text_laws::none_before(self.text(), seq![':', ':'], name.len() as int),
            None => text_laws::none_before(self.text(), seq![':', ':'], self.text().len() as int),
        }
        &&& text_laws::none_before(
            self.url(),
            seq![':', '/', '/'],
            self.scheme().len() as int,
        )
        &&& !self.protocol.contains('+')
        &&& !self.location.contains('?')
        &&& !(self.location + marked(seq!['?'], self.query)).contains('#')
        &&& self.fragment matches Some(fragment) ==> fragment.is_clear()
    }

    /// Whether the source is pinned to a commit or a tag.
    pub open spec fn is_pinned(self) -> bool {
        self.fragment matches Some(fragment) && (fragment.key == seq!['c', 'o', 'm', 'm', 'i', 't']
            || fragment.key == seq!['t', 'a', 'g'])
    }

    /// The branch that the fragment names.
    pub open spec fn branch(self) -> Option<Seq<char>> {
        match self.fragment {
            Some(fragment) => if fragment.key == seq!['b', 'r', 'a', 'n', 'c', 'h'] {
                fragment.value
            } else {
                None
            },
            None => None,
        }
    }

    /// Whether the URL begins with `git`.
    pub open spec fn is_git(self) -> bool {
        let url = self.url();
        url.len() >= 3 && url[0] == 'g' && url[1] == 'i' && url[2] == 't'
    }
}

/// Reading a source field gives back the repository that it was written from: the protocol and the
/// location, without the name, the kind and the queries, and the branch, if the fragment names
/// one. There is none if the URL does not begin with `git`, or if the source is pinned to a commit
/// or a tag.
pub proof fn law_source_is_read_by_its_parts(parts: SourceParts)
    requires
        parts.is_clear(),
    ensures
        !parts.is_git() || parts.is_pinned() ==> parse::git_source(parts.text()) is None,
        parts.is_git() && !parts.is_pinned() ==> parse::git_source(parts.text()) == Some(
            PackageUrlView {
                remote: parts.protocol + seq![':', '/', '/'] + parts.location,
                protocol: parts.protocol,
                branch: parts.branch(),
            },
        ),
{
    reveal_strlit("git");
    reveal_strlit("+");
    reveal_strlit("::");
    reveal_strlit("://");
    reveal_strlit("#");
    reveal_strlit("?");
    reveal_strlit("=");
    reveal_strlit("commit");
    reveal_strlit("tag");
    reveal_strlit("branch");
    assert("::"@ =~= seq![':', ':']);
    assert("://"@ =~= seq![':', '/', '/']);
    assert("+"@ =~= seq!['+']);
    assert("#"@ =~= seq!['#']);
    assert("?"@ =~= seq!['?']);
    assert("="@ =~= seq!['=']);
    assert("commit"@ =~= seq!['c', 'o', 'm', 'm', 'i', 't']);
    assert("tag"@ =~= seq!['t', 'a', 'g']);
    assert("branch"@ =~= seq!['b', 'r', 'a', 'n', 'c', 'h']);
    let url = parts.url();
    let scheme = parts.scheme();
    let rest = parts.rest();
    match parts.name {
        Some(name) => text_laws::law_cut_reads_back(name, "::"@, url),
        None => {
            text_laws::law_cut_is_at_the_first(url, "::"@);
            if let Some((head, tail)) = text::cut(url, "::"@) {
                assert(text_laws::stands(url, "::"@, head.len() as int));
            }
        },
    }
    assert(parse::source_url(parts.text()) == url);
    text_laws::law_cut_reads_back(scheme, "://"@, rest);
    if "git"@.is_prefix_of(url) {
        assert(url[0] == "git"@[0] && url[1] == "git"@[1] && url[2] == "git"@[2]);
    }
    if parts.is_git() {
        assert(url.subrange(0, 3) =~= "git"@);
    }
    match parts.kind {
        Some(kind) => text::lemma_cut_last_at(kind, '+', parts.protocol),
        None => text::lemma_no_cut(scheme, "+"@),
    }
    assert(parse::scheme_protocol(scheme) == parts.protocol);
    let place = parts.location + marked(seq!['?'], parts.query);
    match parts.query {
        Some(query) => {
            assert(place =~= parts.location + "?"@ + query);
            text::lemma_cut_at(parts.location, "?"@, query);
        },
        None => {
            assert(place =~= parts.location);
            text::lemma_no_cut(place, "?"@);
        },
    }
    assert(text::before(place, "?"@) == parts.location);
    match parts.fragment {
        Some(fragment) => {
            assert(rest =~= place + "#"@ + fragment.text());
            text::lemma_cut_at(place, "#"@, fragment.text());
            lemma_fragment_pin(fragment);
        },
        None => {
            assert(rest =~= place);
            text::lemma_no_cut(rest, "#"@);
        },
    }
    assert(text::before(rest, "#"@) == place);
}

/// How a fragment is taken apart.
proof fn lemma_fragment_pin(fragment: FragmentParts)
    requires
        fragment.is_clear(),
    ensures
        parse::fragment_pin(fragment.text()) == (fragment.key, fragment.value),
{
    reveal_strlit("?");
    reveal_strlit("=");
    assert("?"@ =~= seq!['?']);
    assert("="@ =~= seq!['=']);
    let pin = fragment.pin();
    match fragment.query {
        Some(query) => {
            assert(fragment.text() =~= pin + "?"@ + query);
            text::lemma_cut_at(pin, "?"@, query);
        },
        None => {
            assert(fragment.text() =~= pin);
            text::lemma_no_cut(pin, "?"@);
        },
    }
    match fragment.value {
        Some(value) => {
            assert(pin =~= fragment.key + "="@ + value);
            text::lemma_cut_at(fragment.key, "="@, value);
        },
        None => {
            assert(pin =~= fragment.key);
            text::lemma_no_cut(pin, "="@);
        },
    }
}

/// A source field that follows no fragment gives back the repository that it was written from, and
/// no branch.
pub proof fn law_plain_source_reads_back(protocol: Seq<char>, location: Seq<char>)
    requires
        !protocol.contains(':'),
        !protocol.contains('+'),
        !location.contains('#'),
        !location.contains('?'),
        forall|j: int|
            !(#[trigger] text_laws::stands(
                "git+"@ + protocol + "://"@ + location,
                "::"@,
                j,
            )),
    ensures
        parse::git_source("git+"@ + protocol + "://"@ + location) == Some(
            PackageUrlView { remote: protocol + "://"@ + location, protocol, branch: None },
        ),
{
    reveal_strlit("git+");
    reveal_strlit("::");
    reveal_strlit("://");
    assert("::"@ =~= seq![':', ':']);
    assert("://"@ =~= seq![':', '/', '/']);
    let git = seq!['g', 'i', 't'];
    let parts = SourceParts {
        name: None,
        kind: Some(git),
        protocol,
        location,
        query: None,
        fragment: None,
    };
    let source = "git+"@ + protocol + "://"@ + location;
    assert(parts.url() =~= source);
    let scheme = parts.scheme();
    assert(!scheme.contains(':')) by {
        assert forall|k: int| 0 <= k < scheme.len() implies scheme[k] != ':' by {
            if k >= 4 {
                assert(scheme[k] == protocol[k - 4]);
            }
        }
    }
    assert forall|j: int| 0 <= j < scheme.len() implies !(#[trigger] text_laws::stands(
        source,
        "://"@,
        j,
    )) by {
        if text_laws::stands(source, "://"@, j) {
            assert(source[j + 0] == "://"@[0]);
            assert(scheme[j] == ':');
        }
    }
    assert(location + marked(seq!['?'], None) =~= location);
    law_source_is_read_by_its_parts(parts);
}

/// A source field whose URL has no colon with two slashes behind it names no repository.
pub proof fn law_source_without_a_scheme_is_left_out(name: Option<Seq<char>>, url: Seq<char>)
    requires
        forall|j: int| !(#[trigger] text_laws::stands(url, "://"@, j)),
        match name {
            Some(n) => text_laws::none_before(
                n + seq![':', ':'] + url,
                seq![':', ':'],
                n.len() as int,
            ),
            None => forall|j: int| !(#[trigger] text_laws::stands(url, "::"@, j)),
        },
    ensures
        parse::git_source(
            match name {
                Some(n) => n + seq![':', ':'] + url,
                None => url,
            },
        ) is None,
{
    reveal_strlit("::");
    reveal_strlit("://");
    assert("::"@ =~= seq![':', ':']);
    assert("://"@ =~= seq![':', '/', '/']);
    match name {
        Some(n) => text_laws::law_cut_reads_back(n, "::"@, url),
        None => {
            text_laws::law_cut_is_at_the_first(url, "::"@);
            if let Some((head, tail)) = text::cut(url, "::"@) {
                assert(text_laws::stands(url, "::"@, head.len() as int));
            }
        },
    }
    text_laws::law_cut_is_at_the_first(url, "://"@);
    if let Some((head, tail)) = text::cut(url, "://"@) {
        assert(text_laws::stands(url, "://"@, head.len() as int));
    }
}

} // verus!

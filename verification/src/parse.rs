//! Reading what pacman, `checkupdates` and a .SRCINFO say of a package.
use crate::text;
use crate::types;
use crate::types::{
    Error, ErrorView, Package, PackageUrl, PackageUrlView, PackageView, Update, UpdateView,
};
use vstd::prelude::*;

verus! {

/// A version is its pkgver and its pkgrel, with a dash between them; the pkgrel has no dash.
pub open spec fn ver_and_rel(version: Seq<char>) -> Result<(Seq<char>, Seq<char>), ErrorView> {
    match text::cut_last(version, "-"@) {
        Some(parts) => Ok(parts),
        None => Err(ErrorView::ParseErrorPkgverPkgrel(version)),
    }
}

/// A line of `pacman -Qm` is the name of a package and its version, with a space between them.
pub open spec fn pacman_qm(line: Seq<char>) -> Result<PackageView, ErrorView> {
    match text::cut(line, " "@) {
        Some((pkgname, rest)) => match ver_and_rel(rest) {
            Ok((pkgver, pkgrel)) => Ok(PackageView { pkgname, pkgver, pkgrel }),
            Err(e) => Err(e),
        },
        None => Err(ErrorView::ParseErrorPacman(line)),
    }
}

/// A line of `checkupdates` is, with a space between them, the name of a package, its version, an
/// arrow and its newest version.
pub open spec fn checkupdates_line(line: Seq<char>) -> Result<UpdateView, ErrorView> {
    let words = text::pieces(line, " "@);
    if words.len() < 2 {
        Err(ErrorView::ParseErrorCheckUpdates(line))
    } else {
        match ver_and_rel(words[1]) {
            Err(e) => Err(e),
            Ok((pkgver_cur, pkgrel_cur)) => if words.len() < 4 {
                Err(ErrorView::ParseErrorCheckUpdates(line))
            } else {
                match ver_and_rel(words[3]) {
                    Err(e) => Err(e),
                    Ok((pkgver_new, pkgrel_new)) => Ok(
                        UpdateView {
                            pkgname: words[0],
                            pkgver_cur,
                            pkgrel_cur,
                            pkgver_new,
                            pkgrel_new,
                        },
                    ),
                }
            },
        }
    }
}

/// The URL in a source field, which may stand behind a name and two colons.
pub open spec fn source_url(source: Seq<char>) -> Seq<char> {
    match text::cut(source, "::"@) {
        Some((_, url)) => url,
        None => source,
    }
}

/// The protocol that a scheme names, behind the last plus sign.
pub open spec fn scheme_protocol(scheme: Seq<char>) -> Seq<char> {
    match text::cut_last(scheme, "+"@) {
        Some((_, protocol)) => protocol,
        None => scheme,
    }
}

/// What a fragment pins the source to, as key and value. A query is no part of it.
pub open spec fn fragment_pin(fragment: Seq<char>) -> (Seq<char>, Option<Seq<char>>) {
    let pin = text::before(fragment, "?"@);
    match text::cut(pin, "="@) {
        Some((key, value)) => (key, Some(value)),
        None => (pin, None),
    }
}

/// The branch that a source follows. Nothing is returned for a source that is pinned to a commit
/// or a tag, and so follows none.
pub open spec fn followed_branch(rest: Seq<char>) -> Option<Option<Seq<char>>> {
    match text::cut(rest, "#"@) {
        None => Some(None),
        Some((_, fragment)) => {
            let (key, value) = fragment_pin(fragment);
            if key == "commit"@ || key == "tag"@ {
                None
            } else if key == "branch"@ {
                Some(value)
            } else {
                Some(None)
            }
        },
    }
}

/// The git repository that a source field names, unless it is pinned to a commit or a tag.
pub open spec fn git_source(source: Seq<char>) -> Option<PackageUrlView> {
    let url = source_url(source);
    match text::cut(url, "://"@) {
        Some((scheme, rest)) if "git"@.is_prefix_of(url) => {
            let protocol = scheme_protocol(scheme);
            match followed_branch(rest) {
                Some(branch) => Some(
                    PackageUrlView {
                        remote: protocol + "://"@ + text::before(text::before(rest, "#"@), "?"@),
                        protocol,
                        branch,
                    },
                ),
                None => None,
            }
        },
        _ => None,
    }
}

/// Parse a combined pkgver and pkgrel.
/// Example input: "1.26.15-1"
pub fn parse_ver_and_rel(version: &str) -> (res: Result<(String, String), Error>)
    ensures
        types::outcome(res) == ver_and_rel(version@),
{
    match text::rsplit_once(version, "-") {
        Some((pkgver, pkgrel)) => Ok((pkgver.to_owned(), pkgrel.to_owned())),
        None => Err(Error::ParseErrorPkgverPkgrel(version.to_owned())),
    }
}

/// Parse a line of `pacman -Qm` into a package.
/// Example input: "watchman-bin 2024.04.15.00-1"
pub fn parse_pacman_qm(line: &str) -> (res: Result<Package, Error>)
    ensures
        types::outcome(res) == pacman_qm(line@),
{
    match text::split_once(line, " ") {
        Some((pkgname, rest)) => match parse_ver_and_rel(rest) {
            Ok((pkgver, pkgrel)) => Ok(Package { pkgname: pkgname.to_owned(), pkgver, pkgrel }),
            Err(e) => Err(e),
        },
        None => Err(Error::ParseErrorPacman(line.to_owned())),
    }
}

/// Parse a line of `checkupdates` into an update.
/// Example input: "libadwaita 1:1.6.0-1 -> 1:1.6.1-1"
pub fn parse_update(value: &str) -> (res: Result<Update, Error>)
    ensures
        types::outcome(res) == checkupdates_line(value@),
{
    proof {
        reveal_strlit(" ");
    }
    let words: Vec<&str> = text::split(value, " ");
    assert(words.deep_view() == text::pieces(value@, " "@));
    if words.len() < 2 {
        return Err(Error::ParseErrorCheckUpdates(value.to_owned()));
    }
    let (pkgver_cur, pkgrel_cur) = match parse_ver_and_rel(words[1]) {
        Ok(parts) => parts,
        Err(e) => return Err(e),
    };
    if words.len() < 4 {
        return Err(Error::ParseErrorCheckUpdates(value.to_owned()));
    }
    let (pkgver_new, pkgrel_new) = match parse_ver_and_rel(words[3]) {
        Ok(parts) => parts,
        Err(e) => return Err(e),
    };
    Ok(Update { pkgname: words[0].to_owned(), pkgver_cur, pkgrel_cur, pkgver_new, pkgrel_new })
}

/// Parse a source field of a .SRCINFO.
pub fn parse_url<'a>(source: &'a str) -> (res: Option<PackageUrl<'a>>)
    ensures
        res.deep_view() == git_source(source@),
{
    let url: &'a str = match text::split_once(source, "::") {
        Some((_, url)) => url,
        None => source,
    };
    if !text::starts_with(url, "git") {
        return None;
    }
    let (scheme, rest) = match text::split_once(url, "://") {
        Some(parts) => parts,
        None => return None,
    };
    let protocol: &'a str = match text::rsplit_once(scheme, "+") {
        Some((_, protocol)) => protocol,
        None => scheme,
    };
    let mut remote: String = protocol.to_owned();
    remote.append("://");
    remote.append(text::before_first(text::before_first(rest, "#"), "?"));
    let branch: Option<&'a str> = match text::split_once(rest, "#") {
        Some((_, fragment)) => {
            let pin: &'a str = text::before_first(fragment, "?");
            let (key, value): (&'a str, Option<&'a str>) = match text::split_once(pin, "=") {
                Some((key, value)) => (key, Some(value)),
                None => (pin, None),
            };
            if text::same(key, "commit") || text::same(key, "tag") {
                return None;
            }
            if text::same(key, "branch") {
                value
            } else {
                None
            }
        },
        None => None,
    };
    Some(PackageUrl { remote, protocol, branch })
}

} // verus!

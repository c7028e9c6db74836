use arch_updates_rs::{
    check_updates, get_aur_packages, get_devel_packages, get_ignored_packages, pacman,
    parse_pacman_qm, parse_update, parse_url, parse_ver_and_rel, text, CheckType, Error, Package,
    PackageUrl, Update, DEVEL_SUFFIXES,
};

fn package(pkgname: &str, pkgver: &str, pkgrel: &str) -> Package {
    Package {
        pkgname: pkgname.to_string(),
        pkgver: pkgver.to_string(),
        pkgrel: pkgrel.to_string(),
    }
}

fn update(pkgname: &str, cur: (&str, &str), new: (&str, &str)) -> Update {
    Update {
        pkgname: pkgname.to_string(),
        pkgver_cur: cur.0.to_string(),
        pkgrel_cur: cur.1.to_string(),
        pkgver_new: new.0.to_string(),
        pkgrel_new: new.1.to_string(),
    }
}

#[test]
fn test_parse_url() {
    let url = parse_url(
        "paper-icon-theme::git+https://github.com/snwh/paper-icon-theme.git#branch=main",
    )
    .unwrap();
    let expected = PackageUrl {
        remote: "https://github.com/snwh/paper-icon-theme.git".to_string(),
        protocol: "https",
        branch: Some("main"),
    };
    assert_eq!(url, expected);
}

#[test]
fn test_parse_url_none() {
    let url = parse_url(
        "paper-icon-themegit:gopher://github.com/snwh/paper-icon-theme.git branch=main",
    );
    assert!(url.is_none());
}

#[test]
fn test_parse_update() {
    let update = parse_update("libadwaita 1:1.6.0-1 -> 1:1.6.1-2").unwrap();
    let expected = Update {
        pkgname: "libadwaita".to_string(),
        pkgver_cur: "1:1.6.0".to_string(),
        pkgrel_cur: "1".to_string(),
        pkgver_new: "1:1.6.1".to_string(),
        pkgrel_new: "2".to_string(),
    };
    assert_eq!(update, expected);
}

#[test]
fn test_parse_update_error() {
    let str = "libadwaita1:1.6.0-1 - 1:1.6.12";
    let update = parse_update(str).unwrap_err();
    match update {
        Error::ParseErrorCheckUpdates(s) => assert_eq!(s, str),
        _ => panic!(),
    }
}

#[test]
fn test_parse_pacman_qm() {
    let update = parse_pacman_qm("winetricks-git 20240105.r47.g72b934e1-2").unwrap();
    let expected = Package {
        pkgname: "winetricks-git".to_string(),
        pkgver: "20240105.r47.g72b934e1".to_string(),
        pkgrel: "2".to_string(),
    };
    assert_eq!(update, expected);
}

#[test]
fn test_parse_pacman_qm_error() {
    let str = "winetricks-git0240105.r47.g72b934e1-2";
    let update = parse_pacman_qm(str).unwrap_err();
    match update {
        Error::ParseErrorPacman(s) => assert_eq!(s, str),
        _ => panic!(),
    }
}

#[test]
fn test_parse_version() {
    let actual = parse_ver_and_rel("20-240105.r47.g72b934e1-2").unwrap();
    let expected = ("20-240105.r47.g72b934e1".to_string(), "2".to_string());
    assert_eq!(actual, expected);
}

#[test]
fn test_parse_version_error() {
    let str = "20240105.r47.g72b934e12";
    let actual = parse_ver_and_rel("20240105.r47.g72b934e12").unwrap_err();
    match actual {
        Error::ParseErrorPkgverPkgrel(s) => assert_eq!(s, str),
        _ => panic!(),
    }
}

#[test]
fn version_parts_may_be_empty() {
    assert_eq!(parse_ver_and_rel("-").unwrap(), (String::new(), String::new()));
    assert_eq!(parse_ver_and_rel("1-").unwrap(), ("1".to_string(), String::new()));
    assert_eq!(parse_ver_and_rel("-1").unwrap(), (String::new(), "1".to_string()));
    assert!(parse_ver_and_rel("").is_err());
}

#[test]
fn update_line_names_the_bad_version() {
    let no_release = |line: &str, word: &str| match parse_update(line).unwrap_err() {
        Error::ParseErrorPkgverPkgrel(s) => assert_eq!(s, word),
        _ => panic!(),
    };
    no_release("foo 1.0 -> 2.0-1", "1.0");
    no_release("foo 1.0", "1.0");
    no_release("foo 1.0-1 -> 2.0", "2.0");
    no_release("foo  1.0-1 -> 2.0-1", "");
    match parse_update("foo 1.0-1 ->").unwrap_err() {
        Error::ParseErrorCheckUpdates(s) => assert_eq!(s, "foo 1.0-1 ->"),
        _ => panic!(),
    }
    match parse_update("").unwrap_err() {
        Error::ParseErrorCheckUpdates(s) => assert_eq!(s, ""),
        _ => panic!(),
    }
    let more = parse_update("foo 1.0-1 => 2.0-1 and more").unwrap();
    assert_eq!(more, update("foo", ("1.0", "1"), ("2.0", "1")));
}

#[test]
fn package_line_needs_a_release() {
    match parse_pacman_qm("foo 1.0").unwrap_err() {
        Error::ParseErrorPkgverPkgrel(s) => assert_eq!(s, "1.0"),
        _ => panic!(),
    }
    assert_eq!(parse_pacman_qm("foo 1.0 beta-1").unwrap(), package("foo", "1.0 beta", "1"));
}

#[test]
fn url_without_fragment_or_prefix() {
    let url = parse_url("git://example.org/repo.git?signed").unwrap();
    assert_eq!(url.remote, "git://example.org/repo.git");
    assert_eq!(url.protocol, "git");
    assert_eq!(url.branch, None);

    let url = parse_url("git+a+ssh://example.org/repo?signed#branch=dev?x=y").unwrap();
    assert_eq!(url.remote, "ssh://example.org/repo");
    assert_eq!(url.protocol, "ssh");
    assert_eq!(url.branch, Some("dev"));

    assert_eq!(parse_url("git+https://h/r#branch").unwrap().branch, None);
    assert_eq!(parse_url("git+https://h/r#other=x").unwrap().branch, None);
    assert_eq!(parse_url("git+https://h/r#branch=a=b#c").unwrap().branch, Some("a=b#c"));
}

#[test]
fn pinned_url_is_none() {
    assert!(parse_url("git+https://h/r#commit=0123456").is_none());
    assert!(parse_url("git+https://h/r#tag=v1").is_none());
    assert!(parse_url("n::git+https://h/r#tag").is_none());
}

#[test]
fn other_sources_are_none() {
    assert!(parse_url("https://example.org/git.tar.gz").is_none());
    assert!(parse_url("git+https:/h/r").is_none());
    assert!(parse_url("hg+https://h/r").is_none());
    assert!(parse_url("").is_none());
    // Only what stands behind the first two colons is the URL.
    assert!(parse_url("git::hg+https://h/r").is_none());
    assert!(parse_url("a::b::git+https://h/r").is_none());
}

#[test]
fn source_name_changes_nothing() {
    assert_eq!(parse_url("name::git+https://h/r#branch=x"), parse_url("git+https://h/r#branch=x"));
}

#[test]
fn checkupdates_arguments() {
    assert_eq!(pacman::checkupdates_args(&CheckType::Online), vec!["--nocolor"]);
    assert_eq!(
        pacman::checkupdates_args(&CheckType::Offline(())),
        vec!["--nosync", "--nocolor"]
    );
}

#[test]
fn check_updates_reads_every_line() {
    let printed = b"foo 1.0-1 -> 1.1-1\r\nb\xc3\xa4r 2:3-4 -> 2:3-5\n";
    let expected = vec![
        update("foo", ("1.0", "1"), ("1.1", "1")),
        update("b\u{e4}r", ("2:3", "4"), ("2:3", "5")),
    ];
    assert_eq!(check_updates(printed).unwrap(), expected);
    assert_eq!(check_updates(b"").unwrap(), Vec::new());
}

#[test]
fn check_updates_stops_at_the_first_error() {
    match check_updates(b"foo 1.0-1 -> 1.1-1\nbar\nbaz\n").unwrap_err() {
        Error::ParseErrorCheckUpdates(s) => assert_eq!(s, "bar"),
        _ => panic!(),
    }
    match check_updates(b"foo \xff").unwrap_err() {
        Error::Stdout(e) => assert_eq!(e.valid_up_to(), 4),
        _ => panic!(),
    }
}

#[test]
fn updates_read_back() {
    let written = vec![
        update("foo", ("1.0-a", "1"), ("1.1", "2")),
        update("bar", ("3", "4"), ("3", "5")),
    ];
    let mut printed = String::new();
    for u in &written {
        printed += &format!(
            "{} {}-{} -> {}-{}\n",
            u.pkgname, u.pkgver_cur, u.pkgrel_cur, u.pkgver_new, u.pkgrel_new
        );
    }
    assert_eq!(check_updates(printed.as_bytes()).unwrap(), written);
}

#[test]
fn ignored_packages_are_lines() {
    assert_eq!(get_ignored_packages(b"linux\nfoo\n").unwrap(), vec!["linux", "foo"]);
    assert!(get_ignored_packages(b"").unwrap().is_empty());
    assert!(matches!(
        get_ignored_packages(b"\xff"),
        Err(Error::GetIgnoredPackagesFailed)
    ));
}

#[test]
fn aur_packages_exclude_ignored_ones() {
    let printed = b"foo 1-1\nfoobar 2-1\nbar-foo 3-1\nbaz 4-foo\n";
    let ignored = vec!["foo".to_string(), "ba".to_string()];
    let expected = vec![
        package("foobar", "2", "1"),
        package("bar-foo", "3", "1"),
        package("baz", "4", "foo"),
    ];
    assert_eq!(get_aur_packages(&ignored, printed).unwrap(), expected);
    assert_eq!(get_aur_packages(&Vec::new(), printed).unwrap().len(), 4);
}

#[test]
fn aur_packages_report_bad_lines_unless_ignored() {
    let ignored = vec!["broken".to_string()];
    assert_eq!(
        get_aur_packages(&ignored, b"broken 1\nfoo 1-1\n").unwrap(),
        vec![package("foo", "1", "1")]
    );
    match get_aur_packages(&Vec::new(), b"foo 1-1\nbroken 1\nworse").unwrap_err() {
        Error::ParseErrorPkgverPkgrel(s) => assert_eq!(s, "1"),
        _ => panic!(),
    }
    match get_aur_packages(&Vec::new(), b"worse\n").unwrap_err() {
        Error::ParseErrorPacman(s) => assert_eq!(s, "worse"),
        _ => panic!(),
    }
    assert!(matches!(
        get_aur_packages(&Vec::new(), b"foo \xff-1"),
        Err(Error::GetIgnoredPackagesFailed)
    ));
}

#[test]
fn devel_packages_end_with_a_suffix() {
    assert_eq!(DEVEL_SUFFIXES, ["-git"]);
    let packages = vec![
        package("winetricks-git", "1", "1"),
        package("foo", "1", "1"),
        package("foo-git-bin", "1", "1"),
        package("BAR-GIT", "1", "1"),
        package("git", "1", "1"),
    ];
    let expected = vec![package("winetricks-git", "1", "1"), package("BAR-GIT", "1", "1")];
    assert_eq!(get_devel_packages(&packages), expected);
}

#[test]
fn lines_as_std_has_them() {
    for s in ["", "\n", "a", "a\n", "a\n\nb", "a\r\nb\r", "\r\n", "a\rb\n", "\u{1f980}\n\u{e9}"] {
        assert_eq!(text::lines(s), s.lines().collect::<Vec<_>>());
    }
}

#[test]
fn searches_as_std_has_them() {
    let texts = ["", "a", "-", "a-b-c", "--", "a::b", "ab://c://d", "\u{e9}-\u{1f980}"];
    for s in texts {
        for pat in ["-", "::", "://", "a", "\u{1f980}"] {
            assert_eq!(text::split_once(s, pat), s.split_once(pat));
            assert_eq!(text::rsplit_once(s, pat), s.rsplit_once(pat));
            assert_eq!(text::split(s, pat), s.split(pat).collect::<Vec<_>>());
            assert_eq!(text::contains(s, pat), s.contains(pat));
            assert_eq!(text::starts_with(s, pat), s.starts_with(pat));
            assert_eq!(text::ends_with(s, pat), s.ends_with(pat));
        }
        assert!(text::contains(s, ""));
        for t in texts {
            assert_eq!(text::is_after(s, t), s > t);
            assert_eq!(text::same(s, t), s == t);
        }
    }
}

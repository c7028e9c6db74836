use arch_updates_rs::types::VersionOrder;
use arch_updates_rs::{
    aur, check_aur_updates, check_devel_updates, devel, get_aur_srcinfo, get_head_identifier,
    release, AurPackage, AurSrcinfo, CheckType, DevelSource, DevelUpdate, Error, Package,
    SrcinfoBase, Update,
};

fn package(pkgname: &str, pkgver: &str, pkgrel: &str) -> Package {
    Package {
        pkgname: pkgname.to_string(),
        pkgver: pkgver.to_string(),
        pkgrel: pkgrel.to_string(),
    }
}

fn update(pkgname: &str, cur: (&str, &str), new: (&str, &str)) -> Update {
    Update {
        pkgname: pkgname.to_string(),
        pkgver_cur: cur.0.to_string(),
        pkgrel_cur: cur.1.to_string(),
        pkgver_new: new.0.to_string(),
        pkgrel_new: new.1.to_string(),
    }
}

fn reply(name: &str, version: &str) -> AurPackage {
    AurPackage {
        name: name.to_string(),
        version: version.to_string(),
    }
}

fn devel_update(pkgname: &str, pkgver: &str, ref_id: &str) -> DevelUpdate {
    DevelUpdate {
        pkgname: pkgname.to_string(),
        pkgver_cur: pkgver.to_string(),
        pkgrel_cur: "1".to_string(),
        ref_id_new: ref_id.to_string(),
    }
}

fn installed() -> Vec<Package> {
    vec![
        package("alpha", "1.9", "1"),
        package("beta", "1:2.0", "1"),
        package("gamma", "3.0", "2"),
        package("delta", "abc", "1"),
        package("local", "1.0", "1"),
    ]
}

fn replies() -> Vec<AurPackage> {
    vec![
        reply("alpha", "1.10-1"),
        reply("stranger", "no version"),
        reply("beta", "1:2.0-2"),
        reply("gamma", "3.0.0-2"),
        reply("delta", "abd-1"),
    ]
}

#[test]
fn aur_asks_for_every_package() {
    assert_eq!(
        aur::asked_names(&installed()),
        vec!["alpha", "beta", "gamma", "delta", "local"]
    );
}

#[test]
fn aur_online_joins_and_compares() {
    let (due, latest) = check_aur_updates(CheckType::Online, &installed(), &replies());
    let alpha = update("alpha", ("1.9", "1"), ("1.10", "1"));
    let beta = update("beta", ("1:2.0", "1"), ("1:2.0", "2"));
    let gamma = update("gamma", ("3.0", "2"), ("3.0.0", "2"));
    let delta = update("delta", ("abc", "1"), ("abd", "1"));
    assert_eq!(latest, vec![alpha.clone(), beta.clone(), gamma, delta]);
    assert_eq!(due, vec![alpha, beta]);
}

#[test]
fn aur_offline_repeats_online() {
    let (online, cache) = check_aur_updates(CheckType::Online, &installed(), &replies());
    let kept = cache.clone();
    let (offline, same_cache) =
        check_aur_updates(CheckType::Offline(cache), &installed(), &Vec::new());
    assert_eq!(online, offline);
    assert_eq!(same_cache, kept);
}

#[test]
fn aur_offline_repeats_online_in_any_order() {
    let mut turned = replies();
    turned.reverse();
    let (online, cache) = check_aur_updates(CheckType::Online, &installed(), &turned);
    let beta = update("beta", ("1:2.0", "1"), ("1:2.0", "2"));
    let alpha = update("alpha", ("1.9", "1"), ("1.10", "1"));
    assert_eq!(online, vec![beta, alpha]);
    let (offline, _) = check_aur_updates(CheckType::Offline(cache), &installed(), &Vec::new());
    assert_eq!(online, offline);
}

#[test]
fn aur_offline_repeats_online_whatever_else_is_named() {
    let mut more = replies();
    more.push(reply("stranger", "2.0-1"));
    let (online, cache) = check_aur_updates(CheckType::Online, &installed(), &more);
    let (offline, _) = check_aur_updates(CheckType::Offline(cache), &installed(), &Vec::new());
    assert_eq!(online.len(), 2);
    assert_eq!(online, offline);
}

#[test]
fn aur_offline_takes_the_first_entry_of_a_name() {
    let cache = vec![
        update("alpha", ("1.9", "1"), ("1.10", "1")),
        update("alpha", ("1.9", "1"), ("1.11", "1")),
    ];
    let known = aur::updates_from_cache(&installed(), &cache);
    assert_eq!(known, vec![update("alpha", ("1.9", "1"), ("1.10", "1"))]);
}

#[test]
fn aur_offline_knows_the_greater_release() {
    let one = vec![package("a", "1.0", "9")];
    let cache = vec![update("a", ("1.0", "9"), ("1.0", "10"))];
    let (due, same_cache) = check_aur_updates(CheckType::Offline(cache), &one, &Vec::new());
    assert_eq!(due, vec![update("a", ("1.0", "9"), ("1.0", "10"))]);
    assert_eq!(same_cache, due);
}

#[test]
fn aur_offline_uses_the_installed_version() {
    let cache = vec![
        update("alpha", ("1.9", "1"), ("1.10", "1")),
        update("gone", ("1", "1"), ("2", "1")),
    ];
    let upgraded = vec![package("alpha", "1.10", "1")];
    let (due, same_cache) =
        check_aur_updates(CheckType::Offline(cache.clone()), &upgraded, &Vec::new());
    assert_eq!(due, Vec::new());
    assert_eq!(same_cache, cache);
}

#[test]
fn same_version_is_not_due() {
    for version in ["1.0", "", "abc", "1:2.r3.gabc"] {
        let own = vec![update("p", (version, "1"), (version, "1"))];
        assert_eq!(aur::due_updates(&own), Vec::new());
    }
}

#[test]
fn newer_decides_by_version_then_release() {
    let later = update("p", ("1", "1"), ("1", "2"));
    let earlier = update("p", ("1", "2"), ("1", "1"));
    assert!(aur::newer_by(&earlier, Some(VersionOrder::Newer)));
    assert!(aur::newer_by(&later, Some(VersionOrder::Same)));
    assert!(!aur::newer_by(&earlier, Some(VersionOrder::Same)));
    assert!(!aur::newer_by(&later, Some(VersionOrder::Older)));
    assert!(!aur::newer_by(&later, None));
    // Releases are compared by their numbers.
    assert!(aur::newer_by(&update("p", ("1", "9"), ("1", "10")), Some(VersionOrder::Same)));
    assert!(!aur::newer_by(&update("p", ("1", "10"), ("1", "9")), Some(VersionOrder::Same)));
}

#[test]
fn releases_are_ordered_part_by_part() {
    let after = release::is_release_after;
    for (new, cur) in [
        ("2", "1"),
        ("10", "9"),
        ("100", "99"),
        ("1.1", "1"),
        ("1.10", "1.9"),
        ("2.1", "1.10"),
        ("010", "9"),
        ("1b", "1a"),
        ("1.1", "1+b1"),
        ("9.a", "10.a"),
        ("0", ""),
        ("99999999999999999999999", "9999999999999999999999"),
    ] {
        assert!(after(new, cur), "{new} is newer than {cur}");
        assert!(!after(cur, new), "{cur} is not newer than {new}");
    }
    for (a, b) in [("1", "1"), ("01", "1"), ("0", "00"), ("1.1", "1.01"), ("", "")] {
        assert!(!after(a, b) && !after(b, a));
    }
}

#[test]
fn downgrade_is_not_due() {
    let down = vec![update("p", ("2.0", "1"), ("1.9.9", "5"))];
    assert_eq!(aur::due_updates(&down), Vec::new());
}

const SRCINFO: &str = "pkgbase = hyprlang-git
	pkgver = 0.5.0.r1.g72b934e
	pkgrel = 3
	arch = x86_64
	source = git+https://github.com/hyprwm/hyprlang.git
	source = hyprlang.patch
	source_x86_64 = extra::git+https://example.org/extra#branch=dev
	source_x86_64 = git+https://example.org/pinned#tag=v1

pkgname = hyprlang-git
";

fn srcinfo() -> AurSrcinfo {
    get_aur_srcinfo("asked-git".to_string(), SRCINFO).unwrap()
}

#[test]
fn srcinfo_is_read_and_named() {
    let expected = AurSrcinfo {
        pkgname: "asked-git".to_string(),
        base: SrcinfoBase {
            pkgver: "0.5.0.r1.g72b934e".to_string(),
            pkgrel: "3".to_string(),
            source: vec![
                vec![
                    "git+https://github.com/hyprwm/hyprlang.git".to_string(),
                    "hyprlang.patch".to_string(),
                ],
                vec![
                    "extra::git+https://example.org/extra#branch=dev".to_string(),
                    "git+https://example.org/pinned#tag=v1".to_string(),
                ],
            ],
        },
    };
    assert_eq!(srcinfo(), expected);
}

#[test]
fn srcinfo_error_is_kept() {
    match get_aur_srcinfo("p".to_string(), "pkgver = 1\n").unwrap_err() {
        Error::ParseErrorSrcinfo(e) => assert_eq!(e.line.unwrap().number, 1),
        _ => panic!(),
    }
}

#[test]
fn srcinfo_address() {
    assert_eq!(
        devel::srcinfo_url("hyprlang-git"),
        "https://aur.archlinux.org/cgit/aur.git/plain/.SRCINFO?h=hyprlang-git"
    );
}

#[test]
fn each_repository_is_a_source() {
    let source = |remote: &str, branch: Option<&str>| DevelSource {
        pkgname: "asked-git".to_string(),
        pkgver_cur: "0.5.0.r1.g72b934e".to_string(),
        pkgrel_cur: "3".to_string(),
        remote: remote.to_string(),
        branch: branch.map(|b| b.to_string()),
    };
    let expected = vec![
        source("https://github.com/hyprwm/hyprlang.git", None),
        source("https://example.org/extra", Some("dev")),
    ];
    assert_eq!(devel::devel_sources(&vec![srcinfo()]), expected);
    assert_eq!(devel::devel_sources(&vec![srcinfo(), srcinfo()]).len(), 4);
}

#[test]
fn git_is_asked_for_a_branch_or_head() {
    assert_eq!(
        devel::ls_remote_args("https://h/r", None),
        vec!["ls-remote", "https://h/r", "HEAD"]
    );
    assert_eq!(
        devel::ls_remote_args("https://h/r", Some("dev")),
        vec!["ls-remote", "https://h/r", "dev"]
    );
}

#[test]
fn head_identifier_is_the_end_of_the_hash() {
    let printed = b"72b934e1d2c3b4a5968778695a4b3c2d1e0f1234\tHEAD\n";
    assert_eq!(get_head_identifier(printed).unwrap(), "e0f1234");
    let two = b"0123456789\trefs/heads/main\nabcdefabcd\trefs/heads/x/main\n";
    assert_eq!(get_head_identifier(two).unwrap(), "3456789");
    assert_eq!(get_head_identifier(b"1234567\tHEAD\n").unwrap(), "1234567");
}

#[test]
fn head_identifier_errors() {
    assert!(matches!(get_head_identifier(b""), Err(Error::HeadIdentifierTooShort)));
    assert!(matches!(
        get_head_identifier(b"123456\tHEAD\n"),
        Err(Error::HeadIdentifierTooShort)
    ));
    match get_head_identifier(b"\xff").unwrap_err() {
        Error::Stdout(e) => assert_eq!(e.valid_up_to(), 0),
        _ => panic!(),
    }
}

#[test]
fn source_and_head_make_an_update() {
    let sources = devel::devel_sources(&vec![srcinfo()]);
    for source in sources {
        let made = devel::devel_update(source, b"0123456789\tHEAD\n").unwrap();
        assert_eq!(made.pkgname, "asked-git");
        assert_eq!(made.pkgver_cur, "0.5.0.r1.g72b934e");
        assert_eq!(made.pkgrel_cur, "3");
        assert_eq!(made.ref_id_new, "3456789");
    }
}

#[test]
fn devel_online_reports_what_lacks_the_commit() {
    let latest = vec![
        devel_update("a-git", "1.r2.g1234567", "1234567"),
        devel_update("b-git", "1.r2.g1234567", "7654321"),
    ];
    let packages = vec![
        package("a-git", "1.r2.g1234567", "1"),
        package("b-git", "1.r2.g1234567", "1"),
    ];
    let (due, cache) = check_devel_updates(CheckType::Online, &packages, latest.clone());
    assert_eq!(due, vec![latest[1].clone()]);
    assert_eq!(cache, latest);
}

#[test]
fn devel_offline_repeats_online() {
    let packages = vec![package("a-git", "1.g1234567", "1"), package("b-git", "2", "1")];
    let latest = vec![
        devel_update("a-git", "1.g1234567", "1234567"),
        devel_update("b-git", "2", "7654321"),
        devel_update("b-git", "2", "abcdef0"),
    ];
    let (online, cache) = check_devel_updates(CheckType::Online, &packages, latest);
    let kept = cache.clone();
    let (offline, same_cache) =
        check_devel_updates(CheckType::Offline(cache), &packages, Vec::new());
    assert_eq!(online, offline);
    assert_eq!(same_cache, kept);
}

#[test]
fn devel_offline_repeats_online_in_any_order() {
    let packages = vec![package("a-git", "1", "1"), package("b-git", "2", "1")];
    let latest = vec![
        devel_update("b-git", "2", "7654321"),
        devel_update("a-git", "1", "1234567"),
    ];
    let (online, cache) = check_devel_updates(CheckType::Online, &packages, latest.clone());
    assert_eq!(online, vec![latest[1].clone(), latest[0].clone()]);
    let (offline, _) = check_devel_updates(CheckType::Offline(cache), &packages, Vec::new());
    assert_eq!(online, offline);
}

#[test]
fn devel_lists_each_answer_once() {
    // A name that is listed twice is asked twice, and each answer is kept once.
    let packages = vec![package("a-git", "1", "1"), package("a-git", "2", "1")];
    let latest = vec![
        devel_update("a-git", "3", "1234567"),
        devel_update("a-git", "3", "1234567"),
    ];
    let (online, cache) = check_devel_updates(CheckType::Online, &packages, latest);
    let one = devel_update("a-git", "1", "1234567");
    assert_eq!(cache, vec![one.clone(), one]);
    assert_eq!(online, cache);
    let (offline, _) = check_devel_updates(CheckType::Offline(cache), &packages, Vec::new());
    assert_eq!(online, offline);
}

#[test]
fn devel_lists_each_source_once() {
    let packages = vec![package("asked-git", "1", "1")];
    let mut latest = Vec::new();
    for source in devel::devel_sources(&vec![srcinfo()]) {
        let printed: &[u8] = match source.branch {
            Some(_) => b"aaaaaaaaaa\tdev\n",
            None => b"bbbbbbbbbb\tHEAD\n",
        };
        latest.push(devel::devel_update(source, printed).unwrap());
    }
    let (online, cache) = check_devel_updates(CheckType::Online, &packages, latest);
    assert_eq!(
        cache,
        vec![
            devel_update("asked-git", "1", "bbbbbbb"),
            devel_update("asked-git", "1", "aaaaaaa"),
        ]
    );
    assert_eq!(online, cache);
}

#[test]
fn devel_online_uses_the_installed_version() {
    let packages = vec![
        package("a-git", "1.g0000000", "2"),
        package("b-git", "1.g7654321", "1"),
    ];
    // The .SRCINFO of the first has the new commit, that of the second an old one.
    let latest = vec![
        devel_update("a-git", "2.g1234567", "1234567"),
        devel_update("b-git", "0.g0000000", "7654321"),
        devel_update("other-git", "1", "1234567"),
    ];
    let (online, cache) = check_devel_updates(CheckType::Online, &packages, latest);
    assert_eq!(online.len(), 1);
    assert_eq!(online[0].pkgname, "a-git");
    assert_eq!(online[0].pkgver_cur, "1.g0000000");
    assert_eq!(online[0].pkgrel_cur, "2");
    assert_eq!(online[0].ref_id_new, "1234567");
    assert_eq!(cache.len(), 2);
    let (offline, _) = check_devel_updates(CheckType::Offline(cache), &packages, Vec::new());
    assert_eq!(online, offline);
}

#[test]
fn devel_offline_uses_the_installed_version() {
    let cache = vec![
        devel_update("a-git", "1.g0000000", "1234567"),
        devel_update("gone-git", "1", "1234567"),
    ];
    let packages = vec![package("a-git", "1.g1234567", "2"), package("new-git", "1", "1")];
    let (due, same_cache) =
        check_devel_updates(CheckType::Offline(cache.clone()), &packages, Vec::new());
    assert_eq!(due, Vec::new());
    assert_eq!(same_cache, cache);
    let known = devel::updates_from_cache(&packages, &cache);
    assert_eq!(known.len(), 1);
    assert_eq!(known[0].pkgver_cur, "1.g1234567");
    assert_eq!(known[0].pkgrel_cur, "2");
}

use dmlive::error::CookieError;
use dmlive::file_path::{is_among, FilePath};
use dmlive::profiles::{
    candidate_profiles, find_firefox_profiles, firefox_roots, profiles_from_ini,
    resolve_profile_path, Candidate, ProfileEntry, RootListing,
};
use dmlive::unix_path::UnixPath;
use std::path::{Path, PathBuf};

fn path_buf(path: &UnixPath) -> PathBuf {
    PathBuf::from(String::from_utf8(path.as_bytes().clone()).unwrap())
}

fn path_bufs(paths: &[UnixPath]) -> Vec<PathBuf> {
    paths.iter().map(path_buf).collect()
}

fn entry(path: &str, has_cookies: bool, modified: Option<i128>) -> ProfileEntry<UnixPath> {
    ProfileEntry {
        path: UnixPath::new(path),
        has_cookies,
        modified,
    }
}

/// A path with the rules of `std::path`.
struct StdPath(PathBuf);

impl FilePath for StdPath {
    fn new(path: &str) -> StdPath {
        StdPath(PathBuf::from(path))
    }

    fn join(&self, path: &str) -> StdPath {
        StdPath(self.0.join(path))
    }

    fn same_as(&self, other: &StdPath) -> bool {
        self.0 == other.0
    }

    fn duplicate(&self) -> StdPath {
        StdPath(self.0.clone())
    }
}

#[test]
fn any_kind_of_path_can_be_a_profile() {
    let root = PathBuf::from("/home/test");
    let profiles = profiles_from_ini(
        &StdPath(root.clone()),
        "[Profile0]\nPath=a\n[Profile1]\nPath=b\nDefault=1\n[Install0]\nDefault=./a\n",
    );
    assert_eq!(
        profiles.into_iter().map(|path| path.0).collect::<Vec<_>>(),
        vec![root.join("./a"), root.join("b")]
    );
}

#[test]
fn default_firefox_profiles_are_preferred_and_deduplicated() {
    let root = Path::new("/home/test/.mozilla/firefox");
    let profiles = profiles_from_ini(
        &UnixPath::new("/home/test/.mozilla/firefox"),
        r#"
[InstallABC]
Default=Profiles/default-release

[Profile0]
Name=default-release
IsRelative=1
Path=Profiles/default-release
Default=1

[Profile1]
Name=other
IsRelative=1
Path=Profiles/other
"#,
    );
    assert_eq!(
        path_bufs(&profiles),
        vec![root.join("Profiles/default-release"), root.join("Profiles/other")]
    );
}

#[test]
fn absolute_firefox_profile_paths_are_supported() {
    let profiles = profiles_from_ini(
        &UnixPath::new("/unused"),
        "[Profile0]\nIsRelative=0\nPath=/custom/firefox\nDefault=1\n",
    );
    assert_eq!(path_bufs(&profiles), vec![PathBuf::from("/custom/firefox")]);
}

#[test]
fn profiles_marked_as_default_come_before_others() {
    let profiles = profiles_from_ini(
        &UnixPath::new("/r"),
        "[Profile0]\nPath=a\n[Profile1]\nPath=b\nDefault=1\n[Other]\nPath=c\n[Profile2]\nDefault=1\n[Profile3]\nPath=./b/\n[Profile4]\nPath=b//\nDefault=0\n[Profile5]\nPath=a/./\n",
    );
    let paths: Vec<&[u8]> = profiles.iter().map(|p| p.as_bytes().as_slice()).collect();
    assert_eq!(paths, vec![b"/r/b".as_slice(), b"/r/a"]);
}

#[test]
fn installation_default_comes_first() {
    let profiles = profiles_from_ini(
        &UnixPath::new("/r"),
        "[Profile0]\nPath=a\nDefault=1\n[InstallX]\nDefault=z\n[Install]\nLocked=1\n",
    );
    assert_eq!(
        path_bufs(&profiles),
        vec![PathBuf::from("/r/z"), PathBuf::from("/r/a")]
    );
}

#[test]
fn profile_paths_are_resolved_below_the_root() {
    let root = UnixPath::new("/r");
    assert_eq!(
        resolve_profile_path(&root, "p", true).as_bytes().as_slice(),
        b"/r/p"
    );
    assert_eq!(
        resolve_profile_path(&root, "p", false).as_bytes().as_slice(),
        b"p"
    );
    assert_eq!(
        resolve_profile_path(&root, "/p", true).as_bytes().as_slice(),
        b"/p"
    );
}

fn spellings(longest: usize) -> Vec<String> {
    let mut all = vec![String::new()];
    let mut last = all.clone();
    for _ in 0..longest {
        let mut next = Vec::new();
        for word in &last {
            for c in ['/', '.', 'a'] {
                next.push(format!("{word}{c}"));
            }
        }
        all.extend(next.clone());
        last = next;
    }
    all
}

#[test]
fn paths_are_compared_by_their_components() {
    let all = spellings(5);
    for a in &all {
        for b in &all {
            assert_eq!(
                UnixPath::new(a).same_as(&UnixPath::new(b)),
                Path::new(a) == Path::new(b),
                "{a} {b}"
            );
        }
    }
}

#[test]
fn paths_are_joined() {
    let all = spellings(4);
    for a in &all {
        for b in &all {
            let joined = UnixPath::new(a).join(b);
            assert_eq!(
                String::from_utf8(joined.as_bytes().clone()).unwrap(),
                Path::new(a).join(b).to_str().unwrap()
            );
        }
    }
}

#[test]
fn paths_need_not_be_text() {
    let path = UnixPath::from_bytes(vec![0x2f, 0xff]);
    assert_eq!(path.join("é").as_bytes().as_slice(), b"/\xff/\xc3\xa9");
    assert_eq!(path.duplicate().as_bytes(), path.as_bytes());
    assert!(is_among(&path, &vec![UnixPath::new("/"), path.duplicate()]));
    assert!(!is_among(&path, &vec![UnixPath::new("/")]));
}

#[test]
fn firefox_keeps_its_data_below_home() {
    let home = UnixPath::new("/home/test");
    assert_eq!(
        path_bufs(&firefox_roots(&home, false)),
        vec![
            PathBuf::from("/home/test/.mozilla/firefox"),
            PathBuf::from("/home/test/snap/firefox/common/.mozilla/firefox"),
            PathBuf::from("/home/test/.var/app/org.mozilla.firefox/.mozilla/firefox"),
        ]
    );
    assert_eq!(
        path_bufs(&firefox_roots(&home, true)),
        vec![PathBuf::from(
            "/home/test/Library/Application Support/Firefox"
        )]
    );
}

#[test]
fn newest_directories_come_first() {
    let listings = vec![
        RootListing {
            root: UnixPath::new("/r"),
            profiles_ini: Some("[Profile0]\nPath=named\n".to_string()),
            nested: vec![
                entry("/r/Profiles/old", true, Some(-5)),
                entry("/r/Profiles/x", true, Some(7)),
                entry("/r/Profiles/none", false, Some(100)),
                entry("/r/Profiles/unknown", true, None),
                entry("/r/Profiles/y", true, Some(7)),
                entry("/r/Profiles/epoch", true, Some(0)),
            ],
            direct: vec![entry("/r/a", true, Some(1)), entry("/r/b", true, Some(2))],
        },
        RootListing {
            root: UnixPath::new("/s"),
            profiles_ini: None,
            nested: vec![],
            direct: vec![entry("/s/c", true, None)],
        },
    ];
    let expected = [
        "/r/named",
        "/r/Profiles/y",
        "/r/Profiles/x",
        "/r/Profiles/epoch",
        "/r/Profiles/unknown",
        "/r/Profiles/old",
        "/r/b",
        "/r/a",
        "/s/c",
    ];
    assert_eq!(
        path_bufs(&candidate_profiles(&listings)),
        expected.iter().map(PathBuf::from).collect::<Vec<_>>()
    );
}

#[test]
fn found_profiles_hold_cookies_and_differ() {
    let candidate = |path: &str, has_cookies: bool| Candidate {
        path: UnixPath::new(path),
        has_cookies,
    };
    let found = find_firefox_profiles(&vec![
        candidate("/a", false),
        candidate("/b", true),
        candidate("/c", true),
        candidate("//b/", true),
        candidate("/a", true),
    ]);
    match found {
        Ok(profiles) => assert_eq!(
            path_bufs(&profiles),
            vec![PathBuf::from("/b"), PathBuf::from("/c"), PathBuf::from("/a")]
        ),
        Err(e) => panic!("{e:?}"),
    }
    assert!(matches!(
        find_firefox_profiles(&vec![candidate("/a", false)]),
        Err(CookieError::NoProfile)
    ));
    assert_eq!(
        CookieError::NoProfile.message(),
        "no Firefox profile with cookies.sqlite was found"
    );
}

#[test]
fn profiles_keep_their_rank() {
    let profiles = profiles_from_ini(
        &UnixPath::new("/r"),
        "[Profile0]\nPath=a\n[Profile1]\nPath=b\nDefault=1\n[Profile2]\nPath=c\n\
         [Install0]\nDefault=d\n[Profile3]\nPath=e\nDefault=1\n[Install1]\nDefault=c\n",
    );
    let expected: Vec<PathBuf> =
        ["/r/d", "/r/c", "/r/b", "/r/e", "/r/a"].into_iter().map(PathBuf::from).collect();
    assert_eq!(path_bufs(&profiles), expected);
}

#[test]
fn white_space_around_lines_makes_no_difference() {
    let profiles = profiles_from_ini(
        &UnixPath::new("/r"),
        " [Profile0]\t\r\n\t Path=a \r\n\u{3000}IsRelative=1\r\n",
    );
    assert_eq!(path_bufs(&profiles), vec![PathBuf::from("/r/a")]);
}

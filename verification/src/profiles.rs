//! Where Firefox keeps its profiles, and in which order they are tried.

use crate::error::CookieError;
use crate::file_path;
use crate::file_path::FilePath;
use crate::ini;
use crate::text;
use vstd::prelude::*;

verus! {

/// Something found in a directory of profiles.
pub struct ProfileEntry<P> {
    pub path: P,
    /// Whether it holds a cookie database.
    pub has_cookies: bool,
    /// When it was last modified, in nanoseconds after the Unix epoch, if known.
    pub modified: Option<i128>,
}

/// What is found below one directory in which Firefox keeps its data.
pub struct RootListing<P> {
    pub root: P,
    /// The text of `profiles.ini`, if it can be read.
    pub profiles_ini: Option<String>,
    /// The entries of the directory `Profiles`.
    pub nested: Vec<ProfileEntry<P>>,
    /// The entries of the root itself.
    pub direct: Vec<ProfileEntry<P>>,
}

/// A path that may be a profile.
pub struct Candidate<P> {
    pub path: P,
    /// Whether it holds a cookie database.
    pub has_cookies: bool,
}

/// The path that a profile entry stands for.
pub open spec fn resolved<P: FilePath>(root: Seq<u8>, path: Seq<char>, relative: bool) -> Seq<u8> {
    if relative {
        P::joined(root, vstd::utf8::encode_utf8(path))
    } else {
        vstd::utf8::encode_utf8(path)
    }
}

/// Whether `section` gives `key` the value `value`.
pub open spec fn says(section: ini::Section, key: Seq<char>, value: Seq<char>) -> bool {
    section.values.contains_key(key) && section.values[key] == value
}

/// The default profile that an installation names.
pub open spec fn install_default<P: FilePath>(
    root: Seq<u8>,
    section: ini::Section,
) -> Option<Seq<u8>> {
    if text::begins_with(section.name, "Install"@) && section.values.contains_key("Default"@) {
        Some(resolved::<P>(root, section.values["Default"@], true))
    } else {
        None
    }
}

/// The path of a listed profile, where it is marked as the default or not, as
/// `default_only` says.
pub open spec fn listed_profile<P: FilePath>(
    root: Seq<u8>,
    section: ini::Section,
    default_only: bool,
) -> Option<Seq<u8>> {
    if text::begins_with(section.name, "Profile"@) && says(section, "Default"@, "1"@)
        == default_only && section.values.contains_key("Path"@) {
        Some(resolved::<P>(root, section.values["Path"@], !says(section, "IsRelative"@, "0"@)))
    } else {
        None
    }
}

/// The profiles that a `profiles.ini` names: those that installations use, then
/// those that are marked as the default, then the others.
pub open spec fn named_profiles<P: FilePath>(
    root: Seq<u8>,
    sections: Seq<ini::Section>,
) -> Seq<Seq<u8>> {
    sections.filter_map(|s: ini::Section| install_default::<P>(root, s)) + sections.filter_map(
        |s: ini::Section| listed_profile::<P>(root, s, true),
    ) + sections.filter_map(|s: ini::Section| listed_profile::<P>(root, s, false))
}

/// `paths` without those that are the same as an earlier one.
pub open spec fn first_of_each<P: FilePath>(paths: Seq<Seq<u8>>) -> Seq<Seq<u8>>
    decreases paths.len(),
{
    if paths.len() == 0 {
        paths
    } else {
        let before = first_of_each::<P>(paths.drop_last());
        if file_path::holds_path::<P>(before, paths.last()) {
            before
        } else {
            before.push(paths.last())
        }
    }
}

/// The profiles that a `profiles.ini` names, each once.
pub open spec fn ini_profiles<P: FilePath>(root: Seq<u8>, contents: Seq<char>) -> Seq<Seq<u8>> {
    first_of_each::<P>(named_profiles::<P>(root, ini::ini_sections(contents)))
}

/// The directories in which Firefox keeps its data.
pub open spec fn root_names(macos: bool) -> Seq<Seq<char>> {
    if macos {
        seq!["Library/Application Support/Firefox"@]
    } else {
        seq![
            ".mozilla/firefox"@,
            "snap/firefox/common/.mozilla/firefox"@,
            ".var/app/org.mozilla.firefox/.mozilla/firefox"@,
        ]
    }
}

/// The path that a profile entry stands for.
pub fn resolve_profile_path<P: FilePath>(root: &P, path: &str, relative: bool) -> (res: P)
    ensures
        res.spelling() == resolved::<P>(root.spelling(), path@, relative),
{
    if relative {
        root.join(path)
    } else {
        P::new(path)
    }
}

fn entry_is(section: &ini::IniSection, key: &str, value: &str) -> (res: bool)
    ensures
        res == says(section@, key@, value@),
{
    match section.values.get(key) {
        Some(found) => text::same_text(found, value),
        None => false,
    }
}

/// Appends the default profile that `section` names, if it is an installation.
fn push_install_default<P: FilePath>(profiles: &mut Vec<P>, root: &P, section: &ini::IniSection)
    ensures
        file_path::spellings(final(profiles)@) == match install_default::<P>(
            root.spelling(),
            section@,
        ) {
            Some(path) => file_path::spellings(old(profiles)@).push(path),
            None => file_path::spellings(old(profiles)@),
        },
{
    if text::starts_with(section.name.as_str(), "Install") {
        match section.values.get("Default") {
            Some(path) => {
                profiles.push(resolve_profile_path(root, path, true));
                assert(file_path::spellings(profiles@) == file_path::spellings(old(profiles)@).push(
                    resolved::<P>(root.spelling(), path@, true),
                ));
            },
            None => {},
        }
    }
}

/// Appends the profile that `section` lists, if it is one that is asked for.
fn push_listed_profile<P: FilePath>(
    profiles: &mut Vec<P>,
    root: &P,
    section: &ini::IniSection,
    default_only: bool,
)
    ensures
        file_path::spellings(final(profiles)@) == match listed_profile::<P>(
            root.spelling(),
            section@,
            default_only,
        ) {
            Some(path) => file_path::spellings(old(profiles)@).push(path),
            None => file_path::spellings(old(profiles)@),
        },
{
    if text::starts_with(section.name.as_str(), "Profile") && entry_is(section, "Default", "1")
        == default_only {
        match section.values.get("Path") {
            Some(path) => {
                let relative = !entry_is(section, "IsRelative", "0");
                profiles.push(resolve_profile_path(root, path, relative));
                assert(file_path::spellings(profiles@) == file_path::spellings(old(profiles)@).push(
                    resolved::<P>(root.spelling(), path@, relative),
                ));
            },
            None => {},
        }
    }
}

/// `paths` without those that are the same as an earlier one.
fn remove_repeats<P: FilePath>(paths: &Vec<P>) -> (res: Vec<P>)
    ensures
        file_path::spellings(res@) == first_of_each::<P>(file_path::spellings(paths@)),
{
    let ghost all = file_path::spellings(paths@);
    let mut kept: Vec<P> = Vec::new();
    assert(file_path::spellings(kept@) == Seq::<Seq<u8>>::empty());
    let mut i: usize = 0;
    while i < paths.len()
        invariant
            all == file_path::spellings(paths@),
            i <= paths.len(),
            file_path::spellings(kept@) == first_of_each::<P>(all.take(i as int)),
        decreases paths.len() - i,
    {
        assert(all.take(i + 1).drop_last() == all.take(i as int));
        assert(all.take(i + 1).last() == paths@[i as int].spelling());
        let ghost before = file_path::spellings(kept@);
        if !file_path::is_among(&paths[i], &kept) {
            kept.push(paths[i].duplicate());
            assert(file_path::spellings(kept@) == before.push(paths@[i as int].spelling()));
        }
        i = i + 1;
    }
    assert(all.take(i as int) == all);
    kept
}

/// Appends the default profiles that the installations among `sections` name.
fn push_install_defaults<P: FilePath>(
    profiles: &mut Vec<P>,
    root: &P,
    sections: &Vec<ini::IniSection>,
)
    ensures
        file_path::spellings(final(profiles)@) == file_path::spellings(old(profiles)@) + ini::views(
            sections@,
        ).filter_map(|s: ini::Section| install_default::<P>(root.spelling(), s)),
{
    let ghost all = ini::views(sections@);
    let ghost wanted = |s: ini::Section| install_default::<P>(root.spelling(), s);
    let ghost before = file_path::spellings(profiles@);
    let mut i: usize = 0;
    proof {
        assert(all.take(0) == Seq::<ini::Section>::empty());
        reveal(Seq::filter_map);
        assert(before == before + all.take(0).filter_map(wanted));
    }
    while i < sections.len()
        invariant
            all == ini::views(sections@),
            wanted == (|s: ini::Section| install_default::<P>(root.spelling(), s)),
            i <= sections.len(),
            file_path::spellings(profiles@) == before + all.take(i as int).filter_map(wanted),
        decreases sections.len() - i,
    {
        proof {
            all.lemma_filter_map_take_succ(wanted, i as int);
        }
        push_install_default(profiles, root, &sections[i]);
        assert(all[i as int] == sections@[i as int]@);
        assert(file_path::spellings(profiles@) == before + all.take(i + 1).filter_map(wanted));
        i = i + 1;
    }
    assert(all.take(i as int) == all);
}

/// Appends the profiles that `sections` lists, as far as they are asked for.
fn push_listed_profiles<P: FilePath>(
    profiles: &mut Vec<P>,
    root: &P,
    sections: &Vec<ini::IniSection>,
    default_only: bool,
)
    ensures
        file_path::spellings(final(profiles)@) == file_path::spellings(old(profiles)@) + ini::views(
            sections@,
        ).filter_map(|s: ini::Section| listed_profile::<P>(root.spelling(), s, default_only)),
{
    let ghost all = ini::views(sections@);
    let ghost wanted = |s: ini::Section| listed_profile::<P>(root.spelling(), s, default_only);
    let ghost before = file_path::spellings(profiles@);
    let mut i: usize = 0;
    proof {
        assert(all.take(0) == Seq::<ini::Section>::empty());
        reveal(Seq::filter_map);
        assert(before == before + all.take(0).filter_map(wanted));
    }
    while i < sections.len()
        invariant
            all == ini::views(sections@),
            wanted == (|s: ini::Section| listed_profile::<P>(root.spelling(), s, default_only)),
            i <= sections.len(),
            file_path::spellings(profiles@) == before + all.take(i as int).filter_map(wanted),
        decreases sections.len() - i,
    {
        proof {
            all.lemma_filter_map_take_succ(wanted, i as int);
        }
        push_listed_profile(profiles, root, &sections[i], default_only);
        assert(all[i as int] == sections@[i as int]@);
        assert(file_path::spellings(profiles@) == before + all.take(i + 1).filter_map(wanted));
        i = i + 1;
    }
    assert(all.take(i as int) == all);
}

/// The profiles that a `profiles.ini` below `root` names, each once, the preferred
/// ones first.
pub fn profiles_from_ini<P: FilePath>(root: &P, contents: &str) -> (res: Vec<P>)
    ensures
        file_path::spellings(res@) == ini_profiles::<P>(root.spelling(), contents@),
{
    let sections = ini::parse_ini(contents);
    let mut profiles: Vec<P> = Vec::new();
    push_install_defaults(&mut profiles, root, &sections);
    push_listed_profiles(&mut profiles, root, &sections, true);
    push_listed_profiles(&mut profiles, root, &sections, false);
    assert(file_path::spellings(profiles@) == named_profiles::<P>(
        root.spelling(),
        ini::views(sections@),
    ));
    remove_repeats(&profiles)
}

/// The directories below `home` in which Firefox keeps its data, on macOS or on
/// another Unix.
pub fn firefox_roots<P: FilePath>(home: &P, macos: bool) -> (res: Vec<P>)
    ensures
        file_path::spellings(res@) == root_names(macos).map_values(
            |name: Seq<char>| P::joined(home.spelling(), vstd::utf8::encode_utf8(name)),
        ),
{
    let mut roots: Vec<P> = Vec::new();
    if macos {
        roots.push(home.join("Library/Application Support/Firefox"));
    } else {
        roots.push(home.join(".mozilla/firefox"));
        roots.push(home.join("snap/firefox/common/.mozilla/firefox"));
        roots.push(home.join(".var/app/org.mozilla.firefox/.mozilla/firefox"));
    }
    assert(file_path::spellings(roots@) =~= root_names(macos).map_values(
        |name: Seq<char>| P::joined(home.spelling(), vstd::utf8::encode_utf8(name)),
    ));
    roots
}

/// When an entry was last modified. One whose time is not known counts as modified
/// at the Unix epoch.
pub open spec fn age_key<P: FilePath>(entry: ProfileEntry<P>) -> int {
    match entry.modified {
        Some(time) => time as int,
        None => 0,
    }
}

/// The index `k` of an entry put in front of the first index in `order` whose entry
/// is not newer.
pub open spec fn with_index<P: FilePath>(
    entries: Seq<ProfileEntry<P>>,
    order: Seq<int>,
    k: int,
) -> Seq<int>
    decreases order.len(),
{
    if order.len() == 0 || age_key(entries[order[0]]) <= age_key(entries[k]) {
        seq![k] + order
    } else {
        seq![order[0]] + with_index(entries, order.drop_first(), k)
    }
}

/// The indices of the first `n` entries that hold a cookie database, the newest
/// first.
pub open spec fn newest_order<P: FilePath>(entries: Seq<ProfileEntry<P>>, n: int) -> Seq<int>
    decreases n,
{
    if n <= 0 {
        Seq::empty()
    } else {
        let before = newest_order(entries, n - 1);
        if entries[n - 1].has_cookies {
            with_index(entries, before, n - 1)
        } else {
            before
        }
    }
}

/// The entries that hold a cookie database, the newest first.
pub open spec fn newest_first<P: FilePath>(entries: Seq<ProfileEntry<P>>) -> Seq<Seq<u8>> {
    newest_order(entries, entries.len() as int).map_values(|k: int| entries[k].path.spelling())
}

/// The paths below one root that may be profiles, the preferred ones first.
pub open spec fn root_candidates<P: FilePath>(listing: RootListing<P>) -> Seq<Seq<u8>> {
    let named = match listing.profiles_ini {
        Some(contents) => ini_profiles::<P>(listing.root.spelling(), contents@),
        None => Seq::empty(),
    };
    named + newest_first(listing.nested@) + newest_first(listing.direct@)
}

/// The paths that may be profiles, root by root.
pub open spec fn all_candidates<P: FilePath>(listings: Seq<RootListing<P>>) -> Seq<Seq<u8>>
    decreases listings.len(),
{
    if listings.len() == 0 {
        Seq::empty()
    } else {
        all_candidates(listings.drop_last()) + root_candidates(listings.last())
    }
}

/// The candidates that hold a cookie database, each once.
pub open spec fn usable<P: FilePath>(candidates: Seq<Candidate<P>>) -> Seq<Seq<u8>> {
    first_of_each::<P>(
        candidates.filter(|c: Candidate<P>| c.has_cookies).map_values(
            |c: Candidate<P>| c.path.spelling(),
        ),
    )
}

proof fn lemma_with_index<P: FilePath>(
    entries: Seq<ProfileEntry<P>>,
    order: Seq<int>,
    k: int,
    at: int,
)
    requires
        0 <= at <= order.len(),
        forall|i: int| 0 <= i < at ==> age_key(entries[#[trigger] order[i]]) > age_key(entries[k]),
        at < order.len() ==> age_key(entries[order[at]]) <= age_key(entries[k]),
    ensures
        with_index(entries, order, k) == order.insert(at, k),
    decreases order.len(),
{
    if at == 0 {
        assert(seq![k] + order == order.insert(0, k));
    } else {
        let rest = order.drop_first();
        assert forall|i: int| 0 <= i < at - 1 implies age_key(entries[#[trigger] rest[i]])
            > age_key(entries[k]) by {
            assert(rest[i] == order[i + 1]);
        }
        assert(age_key(entries[order[0]]) > age_key(entries[k]));
        lemma_with_index(entries, rest, k, at - 1);
        assert(seq![order[0]] + rest.insert(at - 1, k) == order.insert(at, k));
    }
}

/// The numbers of a list of indices.
spec fn ints(order: Seq<usize>) -> Seq<int> {
    order.map_values(|k: usize| k as int)
}

fn age<P: FilePath>(entry: &ProfileEntry<P>) -> (res: i128)
    ensures
        res == age_key(*entry),
{
    match entry.modified {
        Some(time) => time,
        None => 0,
    }
}

/// Appends the entries that hold a cookie database, the newest first. Of two entries
/// of the same age, the one listed later comes first.
fn push_newest_first<P: FilePath>(profiles: &mut Vec<P>, entries: &Vec<ProfileEntry<P>>)
    ensures
        file_path::spellings(final(profiles)@) == file_path::spellings(old(profiles)@)
            + newest_first(entries@),
{
    let mut order: Vec<usize> = Vec::new();
    assert(ints(order@) == Seq::<int>::empty());
    let mut k: usize = 0;
    while k < entries.len()
        invariant
            k <= entries.len(),
            forall|i: int| 0 <= i < order.len() ==> #[trigger] order@[i] < k,
            ints(order@) == newest_order(entries@, k as int),
        decreases entries.len() - k,
    {
        if entries[k].has_cookies {
            let time: i128 = age(&entries[k]);
            let mut at: usize = 0;
            while at < order.len() && age(&entries[order[at]]) > time
                invariant
                    k < entries.len(),
                    forall|i: int| 0 <= i < order.len() ==> #[trigger] order@[i] < k,
                    time == age_key(entries@[k as int]),
                    at <= order.len(),
                    forall|i: int|
                        0 <= i < at ==> age_key(entries@[#[trigger] order@[i] as int]) > time,
                decreases order.len() - at,
            {
                at = at + 1;
            }
            let ghost before = ints(order@);
            proof {
                assert forall|i: int| 0 <= i < at implies age_key(entries@[#[trigger] before[i]])
                    > age_key(entries@[k as int]) by {
                    assert(before[i] == order@[i]);
                }
                lemma_with_index(entries@, before, k as int, at as int);
            }
            order.insert(at, k);
            assert(ints(order@) == before.insert(at as int, k as int));
        }
        k = k + 1;
    }
    let ghost before = file_path::spellings(profiles@);
    let ghost newest = newest_first(entries@);
    let mut i: usize = 0;
    assert(before == before + newest.take(0));
    while i < order.len()
        invariant
            forall|j: int| 0 <= j < order.len() ==> #[trigger] order@[j] < entries.len(),
            ints(order@) == newest_order(entries@, entries.len() as int),
            newest == newest_first(entries@),
            i <= order.len(),
            file_path::spellings(profiles@) == before + newest.take(i as int),
        decreases order.len() - i,
    {
        let path = entries[order[i]].path.duplicate();
        let ghost added = path.spelling();
        assert(newest[i as int] == added) by {
            assert(ints(order@)[i as int] == order@[i as int]);
        }
        let ghost held = file_path::spellings(profiles@);
        profiles.push(path);
        assert(file_path::spellings(profiles@) == held.push(added));
        assert(held.push(added) == before + newest.take(i + 1));
        i = i + 1;
    }
    assert(newest.len() == order.len()) by {
        assert(ints(order@).len() == order.len());
    }
    assert(newest.take(i as int) == newest);
}

/// The paths that may be profiles: for each root those that `profiles.ini` names, then
/// the directories that hold a cookie database, the newest first.
pub fn candidate_profiles<P: FilePath>(listings: &Vec<RootListing<P>>) -> (res: Vec<P>)
    ensures
        file_path::spellings(res@) == all_candidates(listings@),
{
    let mut profiles: Vec<P> = Vec::new();
    assert(file_path::spellings(profiles@) == Seq::<Seq<u8>>::empty());
    let mut i: usize = 0;
    while i < listings.len()
        invariant
            i <= listings.len(),
            file_path::spellings(profiles@) == all_candidates(listings@.take(i as int)),
        decreases listings.len() - i,
    {
        let listing = &listings[i];
        assert(listings@.take(i + 1).drop_last() == listings@.take(i as int));
        let ghost before = file_path::spellings(profiles@);
        match &listing.profiles_ini {
            Some(contents) => {
                let mut named = profiles_from_ini(&listing.root, contents.as_str());
                let ghost more = file_path::spellings(named@);
                profiles.append(&mut named);
                assert(file_path::spellings(profiles@) == before + more);
            },
            None => {
                assert(before == before + Seq::<Seq<u8>>::empty());
            },
        }
        push_newest_first(&mut profiles, &listing.nested);
        push_newest_first(&mut profiles, &listing.direct);
        assert(file_path::spellings(profiles@) == before + root_candidates(*listing));
        i = i + 1;
    }
    assert(listings@.take(i as int) == listings@);
    profiles
}

/// The candidates that hold a cookie database, each once, in order. It is an error if
/// there is none.
pub fn find_firefox_profiles<P: FilePath>(candidates: &Vec<Candidate<P>>) -> (res: Result<
    Vec<P>,
    CookieError,
>)
    ensures
        match res {
            Ok(profiles) => usable(candidates@).len() > 0 && file_path::spellings(profiles@)
                == usable(candidates@),
            Err(e) => usable(candidates@).len() == 0 && e == CookieError::NoProfile,
        },
{
    let ghost wanted = |c: Candidate<P>| c.has_cookies;
    let mut present: Vec<P> = Vec::new();
    let mut i: usize = 0;
    proof {
        reveal(Seq::filter);
        assert(candidates@.take(0).filter(wanted).map_values(
            |c: Candidate<P>| c.path.spelling(),
        ) == Seq::<Seq<u8>>::empty());
        assert(file_path::spellings(present@) == Seq::<Seq<u8>>::empty());
    }
    while i < candidates.len()
        invariant
            wanted == (|c: Candidate<P>| c.has_cookies),
            i <= candidates.len(),
            file_path::spellings(present@) == candidates@.take(i as int).filter(wanted).map_values(
                |c: Candidate<P>| c.path.spelling(),
            ),
        decreases candidates.len() - i,
    {
        let candidate = &candidates[i];
        let ghost before = candidates@.take(i as int);
        proof {
            assert(candidates@.take(i + 1) == before.push(*candidate));
            before.lemma_filter_push(*candidate, wanted);
        }
        if candidate.has_cookies {
            let ghost held = file_path::spellings(present@);
            present.push(candidate.path.duplicate());
            assert(file_path::spellings(present@) == held.push(candidate.path.spelling()));
            assert(before.filter(wanted).push(*candidate).map_values(
                |c: Candidate<P>| c.path.spelling(),
            ) == held.push(candidate.path.spelling()));
        }
        i = i + 1;
    }
    assert(candidates@.take(i as int) == candidates@);
    let profiles = remove_repeats(&present);
    assert(profiles.len() == usable(candidates@).len()) by {
        assert(file_path::spellings(profiles@).len() == profiles.len());
    }
    if profiles.len() == 0 {
        Err(CookieError::NoProfile)
    } else {
        Ok(profiles)
    }
}

/// Removing repeats keeps every path once: no two of the kept paths are the same, each
/// is one of `paths`, and each of `paths` is the same as a kept one.
pub proof fn law_each_path_is_kept_once<P: FilePath>(paths: Seq<Seq<u8>>)
    ensures
        ({
            let kept = first_of_each::<P>(paths);
            &&& forall|i: int, j: int|
                0 <= i < j < kept.len() ==> !file_path::is_same::<P>(
                    #[trigger] kept[i],
                    #[trigger] kept[j],
                )
            &&& forall|i: int| 0 <= i < kept.len() ==> paths.contains(#[trigger] kept[i])
            &&& forall|i: int|
                0 <= i < paths.len() ==> file_path::holds_path::<P>(kept, #[trigger] paths[i])
            &&& paths.len() > 0 ==> kept.len() > 0 && kept[0] == paths[0]
        }),
    decreases paths.len(),
{
    if paths.len() > 0 {
        let front = paths.drop_last();
        let last = paths.last();
        let before = first_of_each::<P>(front);
        let kept = first_of_each::<P>(paths);
        law_each_path_is_kept_once::<P>(front);
        assert forall|i: int| 0 <= i < kept.len() implies paths.contains(#[trigger] kept[i]) by {
            if i < before.len() {
                assert(front.contains(before[i]));
                let j = choose|j: int| 0 <= j < front.len() && front[j] == before[i];
                assert(paths[j] == kept[i]);
            } else {
                assert(paths[paths.len() - 1] == kept[i]);
            }
        }
        assert forall|i: int| 0 <= i < paths.len() implies file_path::holds_path::<P>(
            kept,
            #[trigger] paths[i],
        ) by {
            if i < front.len() {
                assert(front[i] == paths[i]);
                let j = choose|j: int|
                    0 <= j < before.len() && file_path::is_same::<P>(
                        #[trigger] before[j],
                        paths[i],
                    );
                assert(kept[j] == before[j]);
            } else if !file_path::holds_path::<P>(before, last) {
                assert(file_path::is_same::<P>(kept[kept.len() - 1], last));
            }
        }
    }
}

/// A `profiles.ini` puts the default profile of an installation first; without one, a
/// profile that is marked as the default.
pub proof fn law_default_profile_is_preferred<P: FilePath>(root: Seq<u8>, contents: Seq<char>)
    ensures
        ({
            let sections = ini::ini_sections(contents);
            let installs = sections.filter_map(|s: ini::Section| install_default::<P>(root, s));
            let defaults = sections.filter_map(
                |s: ini::Section| listed_profile::<P>(root, s, true),
            );
            let profiles = ini_profiles::<P>(root, contents);
            &&& installs.len() > 0 ==> profiles.len() > 0 && profiles[0] == installs[0]
            &&& installs.len() == 0 && defaults.len() > 0 ==> profiles.len() > 0 && profiles[0]
                == defaults[0]
        }),
{
    law_each_path_is_kept_once::<P>(named_profiles::<P>(root, ini::ini_sections(contents)));
}

/// Whether `kept` holds the paths that stand at the places `at` of `paths`, in their order.
pub open spec fn picks(paths: Seq<Seq<u8>>, at: Seq<int>, kept: Seq<Seq<u8>>) -> bool {
    &&& at.len() == kept.len()
    &&& forall|i: int|
        0 <= i < at.len() ==> 0 <= #[trigger] at[i] < paths.len() && kept[i] == paths[at[i]]
    &&& forall|i: int, j: int| 0 <= i < j < at.len() ==> #[trigger] at[i] < #[trigger] at[j]
}

/// Removing repeats keeps the order of the paths that stay.
pub proof fn law_kept_paths_stay_in_order<P: FilePath>(paths: Seq<Seq<u8>>)
    ensures
        exists|at: Seq<int>| #[trigger] picks(paths, at, first_of_each::<P>(paths)),
    decreases paths.len(),
{
    let kept = first_of_each::<P>(paths);
    if paths.len() == 0 {
        assert(picks(paths, Seq::<int>::empty(), kept));
    } else {
        let front = paths.drop_last();
        let before = first_of_each::<P>(front);
        law_kept_paths_stay_in_order::<P>(front);
        let at = choose|at: Seq<int>| #[trigger] picks(front, at, before);
        if file_path::holds_path::<P>(before, paths.last()) {
            assert(picks(paths, at, kept));
        } else {
            let longer = at.push(paths.len() - 1);
            assert forall|i: int| 0 <= i < longer.len() implies 0 <= #[trigger] longer[i]
                < paths.len() && kept[i] == paths[longer[i]] by {
                if i < at.len() {
                    assert(longer[i] == at[i]);
                    assert(front[at[i]] == paths[at[i]]);
                }
            }
            assert forall|i: int, j: int| 0 <= i < j < longer.len() implies #[trigger] longer[i]
                < #[trigger] longer[j] by {
                assert(longer[i] == at[i]);
                if j < at.len() {
                    assert(longer[j] == at[j]);
                }
            }
            assert(picks(paths, longer, kept));
        }
    }
}

/// The profiles of a `profiles.ini` keep their rank: those that installations use come
/// before those that are marked as the default, and these before the others, each group in
/// the order of the file.
pub proof fn law_profiles_keep_their_rank<P: FilePath>(root: Seq<u8>, contents: Seq<char>)
    ensures
        ({
            let sections = ini::ini_sections(contents);
            let installs = sections.filter_map(|s: ini::Section| install_default::<P>(root, s));
            let defaults = sections.filter_map(
                |s: ini::Section| listed_profile::<P>(root, s, true),
            );
            let others = sections.filter_map(
                |s: ini::Section| listed_profile::<P>(root, s, false),
            );
            exists|at: Seq<int>|
                #[trigger] picks(
                    installs + defaults + others,
                    at,
                    ini_profiles::<P>(root, contents),
                )
        }),
{
    let named = named_profiles::<P>(root, ini::ini_sections(contents));
    law_kept_paths_stay_in_order::<P>(named);
    let at = choose|at: Seq<int>| #[trigger] picks(named, at, first_of_each::<P>(named));
    assert(picks(named, at, ini_profiles::<P>(root, contents)));
}

/// Whether the entry with index `a` goes before the one with index `b`: it is newer, or
/// of the same age and listed later.
pub open spec fn goes_before<P: FilePath>(entries: Seq<ProfileEntry<P>>, a: int, b: int) -> bool {
    age_key(entries[a]) > age_key(entries[b]) || (age_key(entries[a]) == age_key(entries[b]) && a
        > b)
}

proof fn lemma_with_index_members<P: FilePath>(
    entries: Seq<ProfileEntry<P>>,
    order: Seq<int>,
    k: int,
)
    requires
        forall|i: int| 0 <= i < order.len() ==> #[trigger] order[i] < k,
        forall|i: int, j: int|
            0 <= i < j < order.len() ==> goes_before(
                entries,
                #[trigger] order[i],
                #[trigger] order[j],
            ),
    ensures
        ({
            let after = with_index(entries, order, k);
            &&& forall|i: int, j: int|
                0 <= i < j < after.len() ==> goes_before(
                    entries,
                    #[trigger] after[i],
                    #[trigger] after[j],
                )
            &&& forall|x: int| after.contains(x) <==> x == k || order.contains(x)
        }),
    decreases order.len(),
{
    let after = with_index(entries, order, k);
    if order.len() == 0 || age_key(entries[order[0]]) <= age_key(entries[k]) {
        assert forall|i: int, j: int| 0 <= i < j < after.len() implies goes_before(
            entries,
            #[trigger] after[i],
            #[trigger] after[j],
        ) by {
            assert(after[j] == order[j - 1]);
            if i > 0 {
                assert(after[i] == order[i - 1]);
            } else if j - 1 > 0 {
                assert(goes_before(entries, order[0], order[j - 1]));
            }
        }
        assert forall|x: int| after.contains(x) <==> x == k || order.contains(x) by {
            if order.contains(x) {
                let i = choose|i: int| 0 <= i < order.len() && order[i] == x;
                assert(after[i + 1] == x);
            }
            assert(after[0] == k);
        }
    } else {
        let rest = order.drop_first();
        let tail = with_index(entries, rest, k);
        assert forall|i: int| 0 <= i < rest.len() implies #[trigger] rest[i] < k by {
            assert(rest[i] == order[i + 1]);
        }
        assert forall|i: int, j: int| 0 <= i < j < rest.len() implies goes_before(
            entries,
            #[trigger] rest[i],
            #[trigger] rest[j],
        ) by {
            assert(rest[i] == order[i + 1] && rest[j] == order[j + 1]);
        }
        lemma_with_index_members(entries, rest, k);
        assert forall|i: int, j: int| 0 <= i < j < after.len() implies goes_before(
            entries,
            #[trigger] after[i],
            #[trigger] after[j],
        ) by {
            assert(after[j] == tail[j - 1]);
            if i > 0 {
                assert(after[i] == tail[i - 1]);
            } else {
                assert(tail.contains(tail[j - 1]));
                if tail[j - 1] != k {
                    let m = choose|m: int| 0 <= m < rest.len() && rest[m] == tail[j - 1];
                    assert(order[m + 1] == tail[j - 1]);
                    assert(goes_before(entries, order[0], order[m + 1]));
                }
            }
        }
        assert forall|x: int| after.contains(x) <==> x == k || order.contains(x) by {
            if order.contains(x) {
                let i = choose|i: int| 0 <= i < order.len() && order[i] == x;
                if i > 0 {
                    assert(rest[i - 1] == x);
                    assert(tail.contains(x));
                } else {
                    assert(after[0] == x);
                }
            }
            if x == k || (order.contains(x) && rest.contains(x)) {
                assert(tail.contains(x));
                let i = choose|i: int| 0 <= i < tail.len() && tail[i] == x;
                assert(after[i + 1] == x);
            }
            if after.contains(x) {
                let i = choose|i: int| 0 <= i < after.len() && after[i] == x;
                if i > 0 {
                    assert(tail[i - 1] == x);
                    assert(tail.contains(x));
                    if x != k {
                        let m = choose|m: int| 0 <= m < rest.len() && rest[m] == x;
                        assert(order[m + 1] == x);
                    }
                } else {
                    assert(order[0] == x);
                }
            }
        }
    }
}

/// The order of entries lists exactly those that hold a cookie database, each once, and
/// newer ones before older ones; of two of the same age the one listed later is first.
pub proof fn law_newest_entries_come_first<P: FilePath>(entries: Seq<ProfileEntry<P>>, n: int)
    requires
        0 <= n <= entries.len(),
    ensures
        ({
            let order = newest_order(entries, n);
            &&& forall|k: int|
                #![trigger order.contains(k)]
                #![trigger entries[k]]
                order.contains(k) <==> 0 <= k < n && entries[k].has_cookies
            &&& forall|i: int, j: int|
                0 <= i < j < order.len() ==> goes_before(
                    entries,
                    #[trigger] order[i],
                    #[trigger] order[j],
                )
        }),
    decreases n,
{
    if n > 0 {
        let before = newest_order(entries, n - 1);
        law_newest_entries_come_first(entries, n - 1);
        assert forall|i: int| 0 <= i < before.len() implies #[trigger] before[i] < n - 1 by {
            assert(before.contains(before[i]));
        }
        lemma_with_index_members(entries, before, n - 1);
        let order = newest_order(entries, n);
        assert forall|k: int|
            #![trigger order.contains(k)]
            #![trigger entries[k]]
            order.contains(k) <==> 0 <= k < n && entries[k].has_cookies by {
            assert(order.contains(k) <==> before.contains(k) || (k == n - 1
                && entries[n - 1].has_cookies));
        }
    }
}

/// Every profile that is found holds a cookie database, no two of them are the same, and
/// every candidate that holds one is among them.
pub proof fn law_found_profiles_hold_cookies<P: FilePath>(candidates: Seq<Candidate<P>>)
    ensures
        ({
            let found = usable(candidates);
            &&& forall|i: int|
                0 <= i < found.len() ==> exists|k: int|
                    0 <= k < candidates.len() && (#[trigger] candidates[k]).has_cookies
                        && candidates[k].path.spelling() == #[trigger] found[i]
            &&& forall|i: int, j: int|
                0 <= i < j < found.len() ==> !file_path::is_same::<P>(
                    #[trigger] found[i],
                    #[trigger] found[j],
                )
            &&& forall|k: int|
                0 <= k < candidates.len() && (#[trigger] candidates[k]).has_cookies
                    ==> file_path::holds_path::<P>(found, candidates[k].path.spelling())
        }),
{
    let wanted = |c: Candidate<P>| c.has_cookies;
    let present = candidates.filter(wanted);
    let paths = present.map_values(|c: Candidate<P>| c.path.spelling());
    let found = usable(candidates);
    law_each_path_is_kept_once::<P>(paths);
    assert forall|i: int| 0 <= i < found.len() implies exists|k: int|
        0 <= k < candidates.len() && (#[trigger] candidates[k]).has_cookies
            && candidates[k].path.spelling() == #[trigger] found[i] by {
        assert(paths.contains(found[i]));
        let j = choose|j: int| 0 <= j < paths.len() && paths[j] == found[i];
        assert(present.contains(present[j]));
        candidates.lemma_filter_contains_rev(wanted, present[j]);
        candidates.lemma_filter_pred(wanted, j);
        let k = choose|k: int| 0 <= k < candidates.len() && candidates[k] == present[j];
        assert(candidates[k].has_cookies && candidates[k].path.spelling() == found[i]);
    }
    assert forall|k: int|
        0 <= k < candidates.len() && (
        #[trigger] candidates[k]).has_cookies implies file_path::holds_path::<P>(
        found,
        candidates[k].path.spelling(),
    ) by {
        candidates.lemma_filter_contains(wanted, k);
        let j = choose|j: int| 0 <= j < present.len() && present[j] == candidates[k];
        assert(paths[j] == candidates[k].path.spelling());
    }
}

/// A relative path stands below the root, and any other for itself, whole in both cases.
pub proof fn law_relative_paths_stand_below_the_root<P: FilePath>(root: Seq<u8>, path: Seq<char>)
    ensures
        resolved::<P>(root, path, true) == P::joined(root, vstd::utf8::encode_utf8(path)),
        resolved::<P>(root, path, false) == vstd::utf8::encode_utf8(path),
{
}

/// Which profile a section names. An installation, known by a name that starts with
/// `Install`, names its default. A profile, known by a name that starts with `Profile`,
/// names its path, below the root unless it says that it is not relative, among the
/// defaults exactly if it says `1` there. No other section names one.
pub proof fn law_sections_name_profiles<P: FilePath>(
    root: Seq<u8>,
    section: ini::Section,
    default_only: bool,
)
    ensures
        install_default::<P>(root, section) is Some <==> text::begins_with(
            section.name,
            "Install"@,
        ) && section.values.contains_key("Default"@),
        install_default::<P>(root, section) matches Some(path) ==> path == P::joined(
            root,
            vstd::utf8::encode_utf8(section.values["Default"@]),
        ),
        listed_profile::<P>(root, section, default_only) is Some <==> text::begins_with(
            section.name,
            "Profile"@,
        ) && section.values.contains_key("Path"@) && (default_only <==> section.values.contains_key(
            "Default"@,
        ) && section.values["Default"@] == "1"@),
        listed_profile::<P>(root, section, default_only) matches Some(path) ==> path == (
        if section.values.contains_key("IsRelative"@) && section.values["IsRelative"@] == "0"@ {
            vstd::utf8::encode_utf8(section.values["Path"@])
        } else {
            P::joined(root, vstd::utf8::encode_utf8(section.values["Path"@]))
        }),
{
}

proof fn lemma_filter_map_holds<A, B>(s: Seq<A>, f: spec_fn(A) -> Option<B>, k: int)
    requires
        0 <= k < s.len(),
        f(s[k]) is Some,
    ensures
        s.filter_map(f).contains(f(s[k])->Some_0),
    decreases s.len(),
{
    let front = s.drop_last();
    let last = s.len() - 1;
    assert(s.take(last) == front);
    assert(s.take(last + 1) == s);
    s.lemma_filter_map_take_succ(f, last);
    let found = f(s[k])->Some_0;
    if k < last {
        assert(front[k] == s[k]);
        lemma_filter_map_holds(front, f, k);
        let i = choose|i: int|
            0 <= i < front.filter_map(f).len() && front.filter_map(f)[i] == found;
        assert(s.filter_map(f)[i] == found);
    } else {
        assert(s.filter_map(f)[front.filter_map(f).len() as int] == found);
    }
}

/// Every profile that a `profiles.ini` names is found, wherever its section stands and
/// however many there are.
pub proof fn law_every_named_profile_is_found<P: FilePath>(
    root: Seq<u8>,
    contents: Seq<char>,
    k: int,
)
    requires
        0 <= k < ini::ini_sections(contents).len(),
    ensures
        ({
            let section = ini::ini_sections(contents)[k];
            let found = ini_profiles::<P>(root, contents);
            &&& text::begins_with(section.name, "Install"@) && section.values.contains_key(
                "Default"@,
            ) ==> file_path::holds_path::<P>(
                found,
                P::joined(root, vstd::utf8::encode_utf8(section.values["Default"@])),
            )
            &&& text::begins_with(section.name, "Profile"@) && section.values.contains_key(
                "Path"@,
            ) ==> file_path::holds_path::<P>(
                found,
                if section.values.contains_key("IsRelative"@) && section.values["IsRelative"@]
                    == "0"@ {
                    vstd::utf8::encode_utf8(section.values["Path"@])
                } else {
                    P::joined(root, vstd::utf8::encode_utf8(section.values["Path"@]))
                },
            )
        }),
{
    let sections = ini::ini_sections(contents);
    let section = sections[k];
    let named = named_profiles::<P>(root, sections);
    let install = |s: ini::Section| install_default::<P>(root, s);
    let default = |s: ini::Section| listed_profile::<P>(root, s, true);
    let other = |s: ini::Section| listed_profile::<P>(root, s, false);
    let installs = sections.filter_map(install);
    let defaults = sections.filter_map(default);
    let others = sections.filter_map(other);
    assert(named == installs + defaults + others);
    law_each_path_is_kept_once::<P>(named);
    law_sections_name_profiles::<P>(root, section, true);
    law_sections_name_profiles::<P>(root, section, false);
    if install(section) is Some {
        lemma_filter_map_holds(sections, install, k);
        let path = install(section)->Some_0;
        let i = choose|i: int| 0 <= i < installs.len() && installs[i] == path;
        assert(named[i] == path);
    }
    if default(section) is Some {
        lemma_filter_map_holds(sections, default, k);
        let path = default(section)->Some_0;
        let i = choose|i: int| 0 <= i < defaults.len() && defaults[i] == path;
        assert(named[installs.len() + i] == path);
    }
    if other(section) is Some {
        lemma_filter_map_holds(sections, other, k);
        let path = other(section)->Some_0;
        let i = choose|i: int| 0 <= i < others.len() && others[i] == path;
        assert(named[installs.len() + defaults.len() + i] == path);
    }
}

/// Every path that a `profiles.ini` gives is one that some section names.
pub proof fn law_found_profiles_are_named<P: FilePath>(root: Seq<u8>, contents: Seq<char>, i: int)
    requires
        0 <= i < ini_profiles::<P>(root, contents).len(),
    ensures
        exists|k: int|
            0 <= k < ini::ini_sections(contents).len() && {
                let section = #[trigger] ini::ini_sections(contents)[k];
                let path = ini_profiles::<P>(root, contents)[i];
                ||| install_default::<P>(root, section) == Some(path)
                ||| listed_profile::<P>(root, section, true) == Some(path)
                ||| listed_profile::<P>(root, section, false) == Some(path)
            },
{
    let sections = ini::ini_sections(contents);
    let named = named_profiles::<P>(root, sections);
    let install = |s: ini::Section| install_default::<P>(root, s);
    let default = |s: ini::Section| listed_profile::<P>(root, s, true);
    let other = |s: ini::Section| listed_profile::<P>(root, s, false);
    let installs = sections.filter_map(install);
    let defaults = sections.filter_map(default);
    let others = sections.filter_map(other);
    let path = ini_profiles::<P>(root, contents)[i];
    assert(named == installs + defaults + others);
    law_each_path_is_kept_once::<P>(named);
    assert(named.contains(path));
    let at = choose|at: int| 0 <= at < named.len() && named[at] == path;
    if at < installs.len() {
        assert(installs[at] == path);
        sections.lemma_filter_map_contains(install, path);
    } else if at < installs.len() + defaults.len() {
        assert(defaults[at - installs.len()] == path);
        sections.lemma_filter_map_contains(default, path);
    } else {
        assert(others[at - installs.len() - defaults.len()] == path);
        sections.lemma_filter_map_contains(other, path);
    }
}

/// Whether the path `a` stands somewhere before the path `b`.
pub open spec fn stands_before(paths: Seq<Seq<u8>>, a: Seq<u8>, b: Seq<u8>) -> bool {
    exists|p: int, q: int|
        0 <= p < q < paths.len() && #[trigger] paths[p] == a && #[trigger] paths[q] == b
}

/// Of two entries of one directory that hold a cookie database, the one that was modified
/// later comes first, by the times as they are, however large. One without a time counts as
/// modified at time zero, and of two of the same time the one listed later comes first.
pub proof fn law_later_modified_entry_comes_first<P: FilePath>(
    entries: Seq<ProfileEntry<P>>,
    i: int,
    j: int,
)
    requires
        0 <= i < entries.len(),
        0 <= j < entries.len(),
        entries[i].has_cookies,
        entries[j].has_cookies,
        match (entries[i].modified, entries[j].modified) {
            (Some(s), Some(t)) => s > t || (s == t && i > j),
            (Some(s), None) => s > 0 || (s == 0 && i > j),
            (None, Some(t)) => 0 > t || (0 == t && i > j),
            (None, None) => i > j,
        },
    ensures
        stands_before(
            newest_first(entries),
            entries[i].path.spelling(),
            entries[j].path.spelling(),
        ),
{
    let n = entries.len() as int;
    let order = newest_order(entries, n);
    law_newest_entries_come_first(entries, n);
    assert(order.contains(i));
    assert(order.contains(j));
    let p = choose|p: int| 0 <= p < order.len() && order[p] == i;
    let q = choose|q: int| 0 <= q < order.len() && order[q] == j;
    if q < p {
        assert(goes_before(entries, order[q], order[p]));
    }
    assert(newest_first(entries)[p] == entries[i].path.spelling());
    assert(newest_first(entries)[q] == entries[j].path.spelling());
}

/// The candidates of roots are those of the first ones and then those of the others.
pub proof fn law_roots_are_searched_in_order<P: FilePath>(
    a: Seq<RootListing<P>>,
    b: Seq<RootListing<P>>,
)
    ensures
        all_candidates(a + b) == all_candidates(a) + all_candidates(b),
        all_candidates(Seq::<RootListing<P>>::empty()) == Seq::<Seq<u8>>::empty(),
    decreases b.len(),
{
    if b.len() == 0 {
        assert(a + b == a);
        assert(all_candidates(a) + Seq::<Seq<u8>>::empty() == all_candidates(a));
    } else {
        let rest = b.drop_last();
        law_roots_are_searched_in_order(a, rest);
        assert((a + b).drop_last() == a + rest);
        assert((a + b).last() == b.last());
        assert(all_candidates(a) + (all_candidates(rest) + root_candidates(b.last())) == (
        all_candidates(a) + all_candidates(rest)) + root_candidates(b.last()));
    }
}

/// The candidates below one root: first those that its `profiles.ini` names, if it has one,
/// then those in its `Profiles` directory, and then those in itself.
pub proof fn law_named_profiles_are_tried_first<P: FilePath>(listing: RootListing<P>)
    ensures
        listing.profiles_ini is None ==> all_candidates(seq![listing]) == newest_first(
            listing.nested@,
        ) + newest_first(listing.direct@),
        listing.profiles_ini matches Some(contents) ==> all_candidates(seq![listing])
            == ini_profiles::<P>(listing.root.spelling(), contents@) + newest_first(listing.nested@)
            + newest_first(listing.direct@),
{
    let none = Seq::<RootListing<P>>::empty();
    assert(seq![listing].drop_last() == none);
    assert(all_candidates(none) == Seq::<Seq<u8>>::empty());
    assert(all_candidates(seq![listing]) == root_candidates(listing));
}

proof fn lemma_stands_before_within(
    front: Seq<Seq<u8>>,
    paths: Seq<Seq<u8>>,
    back: Seq<Seq<u8>>,
    a: Seq<u8>,
    b: Seq<u8>,
)
    requires
        stands_before(paths, a, b),
    ensures
        stands_before(front + paths + back, a, b),
{
    let (p, q) = choose|p: int, q: int|
        0 <= p < q < paths.len() && #[trigger] paths[p] == a && #[trigger] paths[q] == b;
    let all = front + paths + back;
    assert(all[front.len() + p] == a);
    assert(all[front.len() + q] == b);
}

/// The list of all candidates keeps the order of each directory: of two profiles in the
/// `Profiles` directory of a root, or in a root itself, the one modified later is tried
/// first.
pub proof fn law_later_modified_profile_is_tried_first<P: FilePath>(
    before: Seq<RootListing<P>>,
    listing: RootListing<P>,
    after: Seq<RootListing<P>>,
    in_profiles: bool,
    i: int,
    j: int,
    s: i128,
    t: i128,
)
    requires
        ({
            let entries = if in_profiles {
                listing.nested@
            } else {
                listing.direct@
            };
            &&& 0 <= i < entries.len()
            &&& 0 <= j < entries.len()
            &&& entries[i].has_cookies
            &&& entries[j].has_cookies
            &&& entries[i].modified == Some(s)
            &&& entries[j].modified == Some(t)
        }),
        s > t,
    ensures
        ({
            let entries = if in_profiles {
                listing.nested@
            } else {
                listing.direct@
            };
            stands_before(
                all_candidates(before.push(listing) + after),
                entries[i].path.spelling(),
                entries[j].path.spelling(),
            )
        }),
{
    let entries = if in_profiles {
        listing.nested@
    } else {
        listing.direct@
    };
    let a = entries[i].path.spelling();
    let b = entries[j].path.spelling();
    let none = Seq::<Seq<u8>>::empty();
    let nested = newest_first(listing.nested@);
    let direct = newest_first(listing.direct@);
    let named = match listing.profiles_ini {
        Some(contents) => ini_profiles::<P>(listing.root.spelling(), contents@),
        None => none,
    };
    law_later_modified_entry_comes_first(entries, i, j);
    if in_profiles {
        lemma_stands_before_within(named, nested, direct, a, b);
    } else {
        lemma_stands_before_within(named + nested, direct, none, a, b);
        assert(named + nested + direct + none == named + nested + direct);
    }
    assert(root_candidates(listing) == named + nested + direct);
    law_roots_are_searched_in_order(before.push(listing), after);
    assert(before.push(listing).drop_last() == before);
    lemma_stands_before_within(
        all_candidates(before),
        root_candidates(listing),
        all_candidates(after),
        a,
        b,
    );
}

proof fn lemma_picks_compose(
    paths: Seq<Seq<u8>>,
    at: Seq<int>,
    kept: Seq<Seq<u8>>,
    of: Seq<int>,
    last: Seq<Seq<u8>>,
)
    requires
        picks(paths, at, kept),
        picks(kept, of, last),
    ensures
        picks(paths, of.map_values(|i: int| at[i]), last),
{
    let through = of.map_values(|i: int| at[i]);
    assert forall|i: int| 0 <= i < through.len() implies 0 <= #[trigger] through[i] < paths.len()
        && last[i] == paths[through[i]] by {
        assert(through[i] == at[of[i]]);
    }
    assert forall|i: int, j: int| 0 <= i < j < through.len() implies #[trigger] through[i]
        < #[trigger] through[j] by {
        assert(of[i] < of[j]);
        assert(at[of[i]] < at[of[j]]);
    }
}

/// The spellings of the paths of candidates.
pub open spec fn candidate_paths<P: FilePath>(candidates: Seq<Candidate<P>>) -> Seq<Seq<u8>> {
    candidates.map_values(|c: Candidate<P>| c.path.spelling())
}

proof fn lemma_filter_picks<P: FilePath>(candidates: Seq<Candidate<P>>) -> (at: Seq<int>)
    ensures
        picks(
            candidate_paths(candidates),
            at,
            candidate_paths(candidates.filter(|c: Candidate<P>| c.has_cookies)),
        ),
    decreases candidates.len(),
{
    let wanted = |c: Candidate<P>| c.has_cookies;
    let paths = candidate_paths(candidates);
    let kept = candidate_paths(candidates.filter(wanted));
    if candidates.len() == 0 {
        reveal(Seq::filter);
        assert(picks(paths, Seq::<int>::empty(), kept));
        Seq::empty()
    } else {
        let front = candidates.drop_last();
        let last = candidates.last();
        let at = lemma_filter_picks(front);
        let front_paths = candidate_paths(front);
        let front_kept = candidate_paths(front.filter(wanted));
        assert(front.push(last) == candidates);
        front.lemma_filter_push(last, wanted);
        assert(forall|m: int|
            0 <= m < front_paths.len() ==> #[trigger] paths[m] == front_paths[m]);
        if last.has_cookies {
            let longer = at.push(candidates.len() - 1);
            assert(kept == front_kept.push(last.path.spelling()));
            assert forall|m: int| 0 <= m < longer.len() implies 0 <= #[trigger] longer[m]
                < paths.len() && kept[m] == paths[longer[m]] by {
                if m < at.len() {
                    assert(longer[m] == at[m]);
                }
            }
            assert forall|m: int, n: int| 0 <= m < n < longer.len() implies #[trigger] longer[m]
                < #[trigger] longer[n] by {
                assert(longer[m] == at[m]);
                if n < at.len() {
                    assert(longer[n] == at[n]);
                }
            }
            assert(picks(paths, longer, kept));
            longer
        } else {
            assert(kept == front_kept);
            assert(picks(paths, at, kept));
            at
        }
    }
}

/// The profiles that are found keep the order of the candidates.
pub proof fn law_found_profiles_stay_in_order<P: FilePath>(candidates: Seq<Candidate<P>>)
    ensures
        exists|at: Seq<int>| #[trigger]
            picks(candidate_paths(candidates), at, usable(candidates)),
{
    let paths = candidate_paths(candidates);
    let kept = candidate_paths(candidates.filter(|c: Candidate<P>| c.has_cookies));
    let at = lemma_filter_picks(candidates);
    law_kept_paths_stay_in_order::<P>(kept);
    let of = choose|of: Seq<int>| #[trigger] picks(kept, of, first_of_each::<P>(kept));
    assert(usable(candidates) == first_of_each::<P>(kept));
    lemma_picks_compose(paths, at, kept, of, usable(candidates));
}

/// Where Firefox keeps its data, in the order in which that is searched.
pub proof fn law_roots_have_their_names()
    ensures
        root_names(true).len() == 1,
        root_names(true)[0] == "Library/Application Support/Firefox"@,
        root_names(false).len() == 3,
        root_names(false)[0] == ".mozilla/firefox"@,
        root_names(false)[1] == "snap/firefox/common/.mozilla/firefox"@,
        root_names(false)[2] == ".var/app/org.mozilla.firefox/.mozilla/firefox"@,
{
}

} // verus!

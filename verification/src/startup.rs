//! Where the browser's program is looked for.
use crate::native::Platform;
use vstd::prelude::*;

verus! {

/// A place where the browser's program may be.
#[derive(Debug, Clone)]
pub struct ChromePlace {
    /// In the directory `chrome` of the application's directory; otherwise in the latter itself.
    pub in_chrome_dir: bool,
    pub file: String,
}

/// What some places hold.
pub open spec fn place_views(v: Seq<ChromePlace>) -> Seq<(bool, Seq<char>)> {
    v.map_values(|p: ChromePlace| (p.in_chrome_dir, p.file@))
}

/// The places where the browser's program may be, in the order in which they are looked at. On
/// Windows a program for Linux comes last, so that it is told that it cannot run.
pub open spec fn chrome_places(platform: Platform) -> Seq<(bool, Seq<char>)> {
    match platform {
        Platform::Windows => seq![
            (true, "headless-shell.exe"@),
            (true, "chrome.exe"@),
            (false, "headless-shell.exe"@),
            (false, "chrome.exe"@),
            (true, "headless-shell"@),
        ],
        _ => seq![(true, "headless-shell"@), (false, "headless-shell"@)],
    }
}

/// A place of the browser's program.
fn place(in_chrome_dir: bool, file: &str) -> (r: ChromePlace)
    ensures
        r.in_chrome_dir == in_chrome_dir,
        r.file@ == file@,
{
    ChromePlace { in_chrome_dir, file: file.to_owned() }
}

/// The places where the browser's program may be, in the order in which they are looked at.
pub fn chrome_candidates(platform: Platform) -> (r: Vec<ChromePlace>)
    ensures
        place_views(r@) == chrome_places(platform),
{
    let mut places: Vec<ChromePlace> = Vec::new();
    match platform {
        Platform::Windows => {
            places.push(place(true, "headless-shell.exe"));
            places.push(place(true, "chrome.exe"));
            places.push(place(false, "headless-shell.exe"));
            places.push(place(false, "chrome.exe"));
            places.push(place(true, "headless-shell"));
        },
        _ => {
            places.push(place(true, "headless-shell"));
            places.push(place(false, "headless-shell"));
        },
    }
    assert(place_views(places@) =~= chrome_places(platform));
    places
}

/// The first path, from the one at `k` on, at which a file was found.
pub open spec fn first_present(paths: Seq<(String, bool)>, k: int) -> Option<Seq<char>>
    decreases paths.len() - k,
{
    if k < 0 || k >= paths.len() {
        None
    } else if paths[k].1 {
        Some(paths[k].0@)
    } else {
        first_present(paths, k + 1)
    }
}

/// The path of the browser's program, where `paths` are those that were looked at, and whether
/// there was a file: the first with one, or else the bare name of the program.
pub fn resolve_chrome_path(paths: &Vec<(String, bool)>) -> (r: String)
    ensures
        r@ == (match first_present(paths@, 0) {
            Some(p) => p,
            None => "headless-shell"@,
        }),
{
    let mut i: usize = 0;
    while i < paths.len()
        invariant
            i <= paths@.len(),
            first_present(paths@, 0) == first_present(paths@, i as int),
        decreases paths.len() - i,
    {
        if paths[i].1 {
            return paths[i].0.clone();
        }
        i = i + 1;
    }
    "headless-shell".to_owned()
}

// ─── Laws ────────────────────────────────────────────────────────────────────

/// A path is passed over only where there was no file: what is chosen is among the paths, and none
/// before it had a file.
pub proof fn law_first_file_is_chosen(paths: Seq<(String, bool)>, i: int)
    requires
        0 <= i < paths.len(),
        paths[i].1,
        forall|j: int| 0 <= j < i ==> !(#[trigger] paths[j]).1,
    ensures
        first_present(paths, 0) == Some(paths[i].0@),
{
    lemma_passes_over(paths, 0, i);
}

/// Paths without a file are passed over.
proof fn lemma_passes_over(paths: Seq<(String, bool)>, k: int, i: int)
    requires
        0 <= k <= i < paths.len(),
        forall|j: int| k <= j < i ==> !(#[trigger] paths[j]).1,
    ensures
        first_present(paths, k) == first_present(paths, i),
    decreases i - k,
{
    if k < i {
        lemma_passes_over(paths, k + 1, i);
    }
}

/// No path is chosen where there is a file at none.
pub proof fn law_no_file_is_chosen_where_there_is_none(paths: Seq<(String, bool)>, k: int)
    requires
        forall|i: int| 0 <= i < paths.len() ==> !(#[trigger] paths[i]).1,
    ensures
        first_present(paths, k) is None,
    decreases paths.len() - k,
{
    if 0 <= k < paths.len() {
        law_no_file_is_chosen_where_there_is_none(paths, k + 1);
    }
}

} // verus!

use tv_proxy::native::Platform;
use tv_proxy::startup::{chrome_candidates, resolve_chrome_path};

#[test]
fn places_of_the_browser() {
    let windows: Vec<(bool, String)> =
        chrome_candidates(Platform::Windows).into_iter().map(|p| (p.in_chrome_dir, p.file)).collect();
    assert_eq!(windows.len(), 5);
    assert_eq!(windows[1], (true, "chrome.exe".to_string()));
    assert_eq!(windows[2], (false, "headless-shell.exe".to_string()));
    assert_eq!(windows[4], (true, "headless-shell".to_string()));
    let other: Vec<(bool, String)> =
        chrome_candidates(Platform::Other).into_iter().map(|p| (p.in_chrome_dir, p.file)).collect();
    assert_eq!(
        other,
        vec![(true, "headless-shell".to_string()), (false, "headless-shell".to_string())]
    );
}

#[test]
fn first_file_is_chosen() {
    let mut paths = vec![("a".to_string(), false), ("b".to_string(), true), ("c".to_string(), true)];
    assert_eq!(resolve_chrome_path(&paths), "b");
    paths[1].1 = false;
    paths[2].1 = false;
    assert_eq!(resolve_chrome_path(&paths), "headless-shell");
    assert_eq!(resolve_chrome_path(&vec![]), "headless-shell");
}

use spaceview::version::is_newer_version;

/// The same comparison written with the standard library's splitting and parsing.
fn by_std(local: &str, remote: &str) -> bool {
    let parse = |s: &str| -> Vec<u32> { s.split('.').filter_map(|p| p.parse().ok()).collect() };
    let l = parse(local);
    let r = parse(remote);
    let len = l.len().max(r.len());
    for i in 0..len {
        let lv = l.get(i).copied().unwrap_or(0);
        let rv = r.get(i).copied().unwrap_or(0);
        if rv > lv {
            return true;
        }
        if rv < lv {
            return false;
        }
    }
    false
}

#[test]
fn newer_patch_minor_and_major_versions() {
    assert!(is_newer_version("0.5.3", "0.5.4"));
    assert!(is_newer_version("0.5.3", "0.6.0"));
    assert!(is_newer_version("0.5.3", "1.0.0"));
    assert!(is_newer_version("0.9", "0.10"));
}

#[test]
fn equal_and_older_versions_are_not_newer() {
    assert!(!is_newer_version("0.5.3", "0.5.3"));
    assert!(!is_newer_version("0.5.4", "0.5.3"));
    assert!(!is_newer_version("1.0.0", "0.9.9"));
    assert!(!is_newer_version("", ""));
}

#[test]
fn missing_components_count_as_zero() {
    assert!(!is_newer_version("1.0", "1"));
    assert!(!is_newer_version("1", "1.0.0"));
    assert!(is_newer_version("1", "1.0.1"));
    assert!(!is_newer_version("1.0.1", "1"));
    assert!(is_newer_version("", "0.0.1"));
}

#[test]
fn components_that_are_no_numbers_are_left_out() {
    // "x" is dropped, so "1.x.3" reads as 1.3.
    assert!(is_newer_version("1.x.3", "1.4"));
    assert!(!is_newer_version("1.x.3", "1.2.9"));
    assert!(is_newer_version("1..2", "1.3"));
    // "v2" is dropped, so "v2.0" reads as 0.
    assert!(is_newer_version("v2.0", "1.9"));
    assert!(!is_newer_version("1.9", "v2.0"));
    // Too large for 32 bits: dropped.
    assert!(!is_newer_version("1", "4294967296"));
    assert!(is_newer_version("1", "4294967295"));
    // A plus sign is part of a number, a minus sign is not.
    assert!(is_newer_version("1", "+2"));
    assert!(!is_newer_version("1", "-2"));
    assert!(!is_newer_version("1", "+"));
    assert!(is_newer_version("1.5", "01.06"));
}

#[test]
fn agrees_with_the_standard_library() {
    let parts = ["", "0", "1", "2", "10", "007", "+3", "-3", "+", "x", "1a", " 1", "4294967295", "4294967296", "99999999999999999999", "٣", "é"];
    let mut texts: Vec<String> = Vec::new();
    for a in parts {
        texts.push(a.to_string());
        for b in parts {
            texts.push(format!("{}.{}", a, b));
            for c in ["", "0", "1", "x"] {
                texts.push(format!("{}.{}.{}", a, b, c));
            }
        }
    }
    let mut checked = 0;
    for (i, local) in texts.iter().enumerate() {
        for remote in texts.iter().skip(i % 7).step_by(7) {
            assert_eq!(is_newer_version(local, remote), by_std(local, remote), "{:?} against {:?}", local, remote);
            checked += 1;
        }
    }
    assert!(checked > 100000);
}

use spaceview::extension::extension_label;
use spaceview::release::newer_release;
use spaceview::version::is_newer_version;

/// The label made with the standard library's splitting.
fn label_by_std(name: &str) -> String {
    name.rsplit('.')
        .next()
        .filter(|e| e.len() < 10 && *e != name)
        .map(|e| format!(".{}", e.to_lowercase()))
        .unwrap_or_else(|| "(no ext)".to_string())
}

/// The release check made with the standard library's searching.
fn release_by_std(local: &str, body: &str) -> Option<String> {
    let marker = "\"tag_name\":";
    let idx = body.find(marker)?;
    let rest = &body[idx + marker.len()..];
    let rest = rest.trim_start();
    if !rest.starts_with('"') {
        return None;
    }
    let rest = &rest[1..];
    let end = rest.find('"')?;
    let tag = &rest[..end];
    let version = tag.strip_prefix('v').unwrap_or(tag);
    if is_newer_version(local, version) {
        Some(version.to_string())
    } else {
        None
    }
}

#[test]
fn extension_label_is_the_lowercase_extension() {
    assert_eq!(extension_label("photo.JPG"), ".jpg");
    assert_eq!(extension_label("archive.tar.gz"), ".gz");
    assert_eq!(extension_label(".bashrc"), ".bashrc");
    assert_eq!(extension_label("trailing."), ".");
    assert_eq!(extension_label("ÜBER.ÄÖ"), ".äö");
}

#[test]
fn extension_label_of_names_without_a_short_extension() {
    assert_eq!(extension_label("Makefile"), "(no ext)");
    assert_eq!(extension_label(""), "(no ext)");
    assert_eq!(extension_label("notes.averylongextension"), "(no ext)");
    // Nine bytes are an extension, ten are not; the length is in bytes.
    assert_eq!(extension_label("a.123456789"), ".123456789");
    assert_eq!(extension_label("a.1234567890"), "(no ext)");
    assert_eq!(extension_label("a.ééééé"), "(no ext)");
    assert_eq!(extension_label("a.éééé"), ".éééé");
}

#[test]
fn extension_label_agrees_with_the_standard_library() {
    let stems = ["", "a", "A.b", ".", "..", "x.y.z", "İstanbul", "file name", "ǅ"];
    let exts = ["", "TXT", "Rs", "tar", "123456789", "1234567890", "ÀÉÎ", "ß", "İ", "Σ", "ﬁ", "日本語"];
    for stem in stems {
        assert_eq!(extension_label(stem), label_by_std(stem), "{:?}", stem);
        for ext in exts {
            let name = format!("{}.{}", stem, ext);
            assert_eq!(extension_label(&name), label_by_std(&name), "{:?}", name);
            let name = format!("{}{}", stem, ext);
            assert_eq!(extension_label(&name), label_by_std(&name), "{:?}", name);
        }
    }
}

#[test]
fn newer_release_reads_the_tag() {
    let body = r#"{"url":"x","tag_name":"v0.6.0","name":"SpaceView 0.6.0"}"#;
    assert_eq!(newer_release("0.5.3", body), Some("0.6.0".to_string()));
    assert_eq!(newer_release("0.6.0", body), None);
    assert_eq!(newer_release("0.7.0", body), None);
    // White space after the colon and a tag without the letter.
    let spaced = "{\n  \"tag_name\": \t\"1.2.3\",\n}";
    assert_eq!(newer_release("1.2.2", spaced), Some("1.2.3".to_string()));
    // Only one letter is taken off.
    assert_eq!(newer_release("0.0.1", r#""tag_name":"vv2""#), None);
    assert_eq!(newer_release("0.0.1", r#""tag_name":"v2v""#), None);
    assert_eq!(newer_release("0.0.1", r#""tag_name":"v2.x""#), Some("2.x".to_string()));
}

#[test]
fn newer_release_of_a_reply_without_a_tag() {
    assert_eq!(newer_release("0.5.3", ""), None);
    assert_eq!(newer_release("0.5.3", r#"{"message":"Not Found"}"#), None);
    assert_eq!(newer_release("0.5.3", r#"{"tag_name":null}"#), None);
    assert_eq!(newer_release("0.5.3", r#"{"tag_name":"#), None);
    assert_eq!(newer_release("0.5.3", r#"{"tag_name":"v9.9.9"#), None);
    assert_eq!(newer_release("0.5.3", r#"{"tag_name" :"v9.9.9"}"#), None);
    assert_eq!(newer_release("0.5.3", r#"{"tag_name":""}"#), None);
    // The first marker counts.
    assert_eq!(newer_release("0.5.3", r#"{"tag_name":"v0.1","tag_name":"v9"}"#), None);
}

#[test]
fn newer_release_agrees_with_the_standard_library() {
    let heads = ["", "{", "é\"tag_name\"", "\"tag_name\":", "{\"tag_name\":", "x\"tag_name\":\"tag_name\":", "\"tag_nam\":\"tag_name\":"];
    let gaps = ["", " ", "\t\n", "\u{a0}", "\u{85}\u{2003} ", "\u{3000}", "\u{200b}", "\u{1680}\u{2028}\u{2029}\u{202f}\u{205f}", "x", "\u{180e}"];
    let tags = ["\"v1.0\"", "\"1.0\"", "\"v\"", "\"\"", "\"v0.5.4", "v0.5.4\"", "\"vv3\"", "\"é2\"", "\"0.5.3.1\"", "null", "\"9\"\"10\""];
    let tails = ["", "}", ",\"tag_name\":\"v99\"}"];
    let mut checked = 0;
    for head in heads {
        for gap in gaps {
            for tag in tags {
                for tail in tails {
                    let body = format!("{}{}{}{}", head, gap, tag, tail);
                    assert_eq!(newer_release("0.5.3", &body), release_by_std("0.5.3", &body), "{:?}", body);
                    checked += 1;
                }
            }
        }
    }
    assert!(checked > 2000);
}

#[test]
fn white_space_is_what_the_standard_library_trims() {
    // Every character between the marker and the quote is skipped exactly if
    // the standard library counts it as white space.
    for code in 0..=0x10ffffu32 {
        if let Some(c) = char::from_u32(code) {
            if c == '"' {
                continue;
            }
            let body = format!("\"tag_name\":{}\"v2\"", c);
            let found = newer_release("1", &body).is_some();
            assert_eq!(found, c.is_whitespace(), "U+{:04X}", code);
        }
    }
}

use blog::assets::{hashed_asset_name, hashed_name_from_digest, rewrite_url, AssetManifest, RewriteError};

fn manifest() -> AssetManifest {
    let mut m = AssetManifest::new();
    m.insert("logo.png".to_string(), "ab12cd3_logo.png".to_string());
    m
}

#[test]
fn asset_reference_goes_to_hashed_name() {
    let m = manifest();
    let r = rewrite_url("..", &m, "/public/logo.png").ok().unwrap();
    assert_eq!(r, "../public/ab12cd3_logo.png");
}

#[test]
fn root_relative_reference_gets_prefix() {
    let m = manifest();
    assert_eq!(rewrite_url("..", &m, "/about").ok().unwrap(), "../about");
}

#[test]
fn absolute_reference_is_unchanged() {
    let m = manifest();
    assert_eq!(rewrite_url("..", &m, "https://example.com").ok().unwrap(), "https://example.com");
    assert_eq!(rewrite_url("..", &m, "notes.html").ok().unwrap(), "notes.html");
    assert_eq!(rewrite_url("..", &m, "").ok().unwrap(), "");
}

#[test]
fn unknown_asset_is_an_error() {
    let m = manifest();
    match rewrite_url("..", &m, "/public/missing.css") {
        Err(RewriteError::MissingAsset(item)) => assert_eq!(item, "missing.css"),
        Ok(_) => panic!("rewritten"),
    }
}

#[test]
fn manifest_insert_replaces() {
    let mut m = manifest();
    m.insert("logo.png".to_string(), "zz_logo.png".to_string());
    assert_eq!(m.get("logo.png"), Some(&"zz_logo.png".to_string()));
    assert_eq!(m.get("other.png"), None);
}

#[test]
fn hashed_name_takes_seven_characters() {
    assert_eq!(hashed_name_from_digest("qZk-NkcGgWq6PiVxeFDCbJzQ2J0", "logo.png"), "qZk-Nkc_logo.png");
    assert_eq!(hashed_name_from_digest("abc", "x"), "abc_x");
}

#[test]
fn hashed_asset_name_of_known_content() {
    // SHA-1 of "abc" is a9993e36..., whose URL-safe base64 starts "qZk-Nkc".
    assert_eq!(hashed_asset_name(&b"abc".to_vec(), "logo.png"), "qZk-Nkc_logo.png");
    assert_ne!(hashed_asset_name(&b"abd".to_vec(), "logo.png"), "qZk-Nkc_logo.png");
}

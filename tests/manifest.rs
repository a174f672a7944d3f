use panels_wallpapers::{Manifest, ManifestData};

fn entry(dhd: Option<&str>, dsd: Option<&str>) -> ManifestData {
    ManifestData {
        dhd: dhd.map(String::from),
        dsd: dsd.map(String::from),
        ..ManifestData::default()
    }
}

#[test]
fn wallpaper_needs_a_full_image_url() {
    assert!(entry(Some("h"), None).is_wallpaper());
    assert!(entry(None, Some("s")).is_wallpaper());
    assert!(entry(Some("h"), Some("s")).is_wallpaper());
    assert!(!entry(None, None).is_wallpaper());
    let other_fields = ManifestData {
        e: Some(String::from("thumb")),
        s: Some(String::from("share")),
        wfs: Some(String::from("x")),
        ..ManifestData::default()
    };
    assert!(!other_fields.is_wallpaper());
}

#[test]
fn high_definition_url_is_preferred() {
    let e = entry(Some("https://img/hd.jpg"), Some("https://img/sd.jpg"));
    assert_eq!(e.wallpaper_url(), Some("https://img/hd.jpg"));
}

#[test]
fn standard_definition_url_when_alone() {
    let e = entry(None, Some("https://img/sd.jpg"));
    assert_eq!(e.wallpaper_url(), Some("https://img/sd.jpg"));
    let h = entry(Some("https://img/hd.jpg"), None);
    assert_eq!(h.wallpaper_url(), Some("https://img/hd.jpg"));
}

#[test]
fn no_url_without_full_image() {
    assert_eq!(entry(None, None).wallpaper_url(), None);
}

#[test]
fn wallpapers_keeps_only_wallpaper_entries() {
    let manifest = Manifest {
        version: 1,
        data: vec![
            (String::from("a"), entry(Some("https://img/a"), None)),
            (String::from("b"), entry(None, None)),
            (String::from("c"), entry(Some("https://img/c"), None)),
        ],
    };
    let w = manifest.wallpapers();
    assert_eq!(w.len(), 2);
    assert_eq!(w[0].dhd.as_deref(), Some("https://img/a"));
    assert_eq!(w[1].dhd.as_deref(), Some("https://img/c"));
}

#[test]
fn wallpapers_of_empty_manifest() {
    let manifest = Manifest { version: 1, data: Vec::new() };
    assert!(manifest.wallpapers().is_empty());
}

#[test]
fn wallpapers_keeps_entry_order_and_dsd_only_entries() {
    let manifest = Manifest {
        version: 1,
        data: vec![
            (String::from("x"), entry(None, Some("s1"))),
            (String::from("y"), entry(None, None)),
            (String::from("z"), entry(Some("h2"), Some("s2"))),
            (String::from("w"), entry(None, None)),
        ],
    };
    let w = manifest.wallpapers();
    assert_eq!(w.len(), 2);
    assert_eq!(w[0].wallpaper_url(), Some("s1"));
    assert_eq!(w[1].wallpaper_url(), Some("h2"));
}

#[test]
fn manifest_endpoint_appends_api_path() {
    assert_eq!(
        Manifest::endpoint("http://localhost:8080"),
        "http://localhost:8080/panels-api/data/20240916/media-1a-i-p~s"
    );
    assert_eq!(Manifest::endpoint(""), "/panels-api/data/20240916/media-1a-i-p~s");
}

use rmds::metadata::{classify_component, classify_filesystem_name, is_macos_metadata, MetadataKind};

#[test]
fn classifies_exact_metadata_names() {
    assert_eq!(classify_filesystem_name(b".DS_Store"), Some(MetadataKind::DsStore));
    assert_eq!(classify_filesystem_name(b"._image.png"), Some(MetadataKind::AppleDouble));
    assert_eq!(classify_filesystem_name(b"__MACOSX"), Some(MetadataKind::MacosxDirectory));
}

#[test]
fn component_classifier_preserves_similar_names() {
    for name in [
        &b"README.md"[..],
        &b"DS_Store.txt"[..],
        &b".DS_Store.backup"[..],
        &b"my.DS_Store"[..],
        &b"foo._bar"[..],
        &b"image._backup"[..],
        &b".gitignore"[..],
        &b".env"[..],
        &b".hidden"[..],
        &b"MACOSX"[..],
        &b"__MACOSX-file"[..],
        &b"foo__MACOSX"[..],
    ] {
        assert_eq!(classify_component(name), None, "{name:?}");
    }
}

#[test]
fn classifies_unicode_appledouble_names() {
    assert_eq!(
        classify_filesystem_name("._照片.jpg".as_bytes()),
        Some(MetadataKind::AppleDouble)
    );
    assert_eq!(classify_filesystem_name("照片.jpg".as_bytes()), None);
}

#[test]
fn classifies_non_utf8_appledouble_without_lossy_conversion() {
    let name: &[u8] = b"._photo-\xff.jpg";
    assert_eq!(classify_filesystem_name(name), Some(MetadataKind::AppleDouble));
}

#[test]
fn recognizes_required_metadata_components() {
    for name in [
        ".DS_Store",
        "folder/.DS_Store",
        "foo/bar/.DS_Store",
        "._foo",
        "folder/._foo",
        "foo/bar/._image.png",
        "__MACOSX/",
        "__MACOSX/._foo",
        "__MACOSX/folder/._image.png",
        "foo/__MACOSX/file",
    ] {
        assert!(is_macos_metadata(name.as_bytes()), "{name}");
    }
}

#[test]
fn preserves_unrelated_hidden_and_similarly_named_entries() {
    for name in [
        "README.md",
        "DS_Store.txt",
        "foo._bar",
        "image.png",
        ".gitignore",
        ".env",
        ".hidden",
        "MACOSX/",
        "__MACOSX-file.txt",
        "foo/__MACOSX-file.txt",
    ] {
        assert!(!is_macos_metadata(name.as_bytes()), "{name}");
    }
}

#[test]
fn uses_zip_separators_on_every_host() {
    assert!(is_macos_metadata(b"folder/.DS_Store"));
    assert!(!is_macos_metadata(b"folder\\.DS_Store"));
}

#[test]
fn appledouble_needs_the_dot_underscore_prefix_only() {
    assert_eq!(classify_component(b"._"), Some(MetadataKind::AppleDouble));
    assert_eq!(classify_component(b"._x"), Some(MetadataKind::AppleDouble));
    assert_eq!(classify_component(b"."), None);
    assert_eq!(classify_component(b""), None);
    assert_eq!(classify_component(b"_._x"), None);
}

#[test]
fn empty_components_of_a_zip_name_are_ignored() {
    assert!(!is_macos_metadata(b""));
    assert!(!is_macos_metadata(b"/"));
    assert!(is_macos_metadata(b"a//.DS_Store"));
    assert!(!is_macos_metadata(b"a/.DS_Storex/b"));
}

#[test]
fn joined_names_are_metadata_exactly_when_a_part_is() {
    let names: [&[u8]; 6] = [b"docs", b".DS_Store", b"a/b", b"x/__MACOSX", b"", b"._y/z"];
    for a in names {
        for b in names {
            let joined = [a, b"/", b].concat();
            assert_eq!(
                is_macos_metadata(&joined),
                is_macos_metadata(a) || is_macos_metadata(b),
                "{:?} / {:?}",
                a,
                b
            );
        }
    }
}

use epub_furigana::archive::{
    check_first_entry, classify, contains_bytes, content_entry, ends_with_bytes, mimetype_entry,
    prepare_entry, ArchiveError, Compression, EntryAction, Rewriter, Role,
};

const FRAGMENT: &str = "
ruby.pitch_accent > rt {
    color: #c0c0c0;
}
ruby.pitch_flat > rt {
    color: #c0c0c0;
}
";

fn written(a: EntryAction) -> Vec<u8> {
    match a {
        EntryAction::Write(b) => b,
        EntryAction::Annotate(_) => panic!("expected bytes to write"),
    }
}

#[test]
fn css_gains_fragment_once_invalid_css_unchanged() {
    let css = b"p { margin: 0; }".to_vec();
    let out = written(prepare_entry(&b"OEBPS/style.css".to_vec(), css.clone()));
    assert_eq!(out, [css.clone(), FRAGMENT.as_bytes().to_vec()].concat());
    assert_eq!(out.len(), css.len() + FRAGMENT.len());

    let bad = vec![0x70u8, 0xff, 0xfe, 0x20];
    assert_eq!(written(prepare_entry(&b"style.css".to_vec(), bad.clone())), bad);
}

#[test]
fn other_entries_pass_through() {
    let png = vec![0x89u8, b'P', b'N', b'G', 0, 0xff];
    assert_eq!(written(prepare_entry(&b"images/cover.png".to_vec(), png.clone())), png);
    let opf = b"<package/>".to_vec();
    assert_eq!(written(prepare_entry(&b"content.opf".to_vec(), opf.clone())), opf);
}

#[test]
fn html_is_annotated_unless_nav_or_undecodable() {
    let page = "<p>本</p>".as_bytes().to_vec();
    match prepare_entry(&b"text/ch1.xhtml".to_vec(), page.clone()) {
        EntryAction::Annotate(t) => assert_eq!(t, page),
        EntryAction::Write(_) => panic!("expected annotation"),
    }
    assert_eq!(written(prepare_entry(&b"nav.xhtml".to_vec(), page.clone())), page);
    let bad = vec![b'<', 0xc3, 0x28, b'>'];
    assert_eq!(written(prepare_entry(&b"ch2.html".to_vec(), bad.clone())), bad);
}

#[test]
fn roles_by_path() {
    assert_eq!(classify(&b"a/b.html".to_vec()), Role::Html);
    assert_eq!(classify(&b"a/b.xhtml".to_vec()), Role::Html);
    assert_eq!(classify(&b"a/toc_nav.xhtml".to_vec()), Role::Other);
    assert_eq!(classify(&b"navigation/b.html".to_vec()), Role::Other);
    assert_eq!(classify(&b"s.css".to_vec()), Role::Css);
    assert_eq!(classify(&b"s.css.bak".to_vec()), Role::Other);
    assert_eq!(classify(&b"html".to_vec()), Role::Other);
    assert_eq!(classify(&b"".to_vec()), Role::Other);
}

#[test]
fn byte_search_helpers() {
    assert!(ends_with_bytes(b"abc", b"bc"));
    assert!(ends_with_bytes(b"abc", b""));
    assert!(!ends_with_bytes(b"c", b"bc"));
    assert!(contains_bytes(b"xnavy", b"nav"));
    assert!(!contains_bytes(b"na", b"nav"));
    assert!(contains_bytes(b"", b""));
}

#[test]
fn first_entry_must_be_mimetype() {
    assert_eq!(check_first_entry(&b"mimetype".to_vec()), Ok(()));
    assert_eq!(check_first_entry(&b"META-INF/container.xml".to_vec()), Err(ArchiveError::NotEpub));
    assert_eq!(check_first_entry(&b"mimetype2".to_vec()), Err(ArchiveError::NotEpub));
}

#[test]
fn mimetype_written_first_stored() {
    let e = mimetype_entry();
    assert_eq!(e.path, b"mimetype".to_vec());
    assert_eq!(e.data, b"application/epub+zip".to_vec());
    assert_eq!(e.compression, Compression::Stored);
    let c = content_entry(b"x.css".to_vec(), b"y".to_vec());
    assert_eq!(c.compression, Compression::Deflated);
    assert_eq!(c.path, b"x.css".to_vec());
}

#[test]
fn rewriter_writes_mimetype_first_and_keeps_other_bytes() {
    assert!(Rewriter::start(&b"OEBPS/content.opf".to_vec()).is_err());
    let mut w = Rewriter::start(&b"mimetype".to_vec()).unwrap();
    let font = vec![0u8, 1, 2, 0xff];
    let path = b"fonts/a.otf".to_vec();
    match prepare_entry(&path, font.clone()) {
        EntryAction::Write(b) => w.push_entry(path.clone(), b),
        EntryAction::Annotate(_) => panic!("expected bytes to write"),
    }
    w.push_entry(b"mimetype".to_vec(), b"text/plain".to_vec());
    let entries = w.into_entries();
    assert_eq!(entries.len(), 3);
    assert_eq!(entries[0].path, b"mimetype".to_vec());
    assert_eq!(entries[0].data, b"application/epub+zip".to_vec());
    assert_eq!(entries[0].compression, Compression::Stored);
    assert_eq!(entries[1].path, path);
    assert_eq!(entries[1].data, font);
    assert_eq!(entries[1].compression, Compression::Deflated);
    assert_eq!(entries[2].compression, Compression::Deflated);
}

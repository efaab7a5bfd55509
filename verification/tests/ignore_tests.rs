use robber::ignore::FileManager;

fn manager(exts: &[&str]) -> FileManager {
    FileManager::new(exts.iter().map(|e| e.to_string()).collect())
}

#[test]
fn compound_extension_is_ignored() {
    let fm = manager(&[".tar.gz"]);
    assert!(fm.is_ignored("archive.tar.gz"));
}

#[test]
fn simple_extension_is_ignored() {
    let fm = manager(&[".gz"]);
    assert!(fm.is_ignored("file.gz"));
    assert!(fm.is_ignored("archive.tar.gz"));
}

#[test]
fn similar_suffix_without_dot_is_not_ignored() {
    let fm = manager(&[".tar.gz", ".gz", ".xyz"]);
    assert!(!fm.is_ignored("file.tarxyz"));
}

#[test]
fn extension_comparison_lowercases_the_name() {
    let fm = manager(&[".png"]);
    assert!(fm.is_ignored("PHOTO.PNG"));
    assert!(fm.is_ignored("Photo.Png"));
}

#[test]
fn no_extension_is_never_ignored() {
    let fm = manager(&[".gz", ".png"]);
    assert!(!fm.is_ignored("Makefile"));
    assert!(!fm.is_ignored("dir.gz/file"));
}

#[test]
fn dotfile_name_alone_is_not_an_extension() {
    let fm = manager(&[".gz"]);
    assert!(!fm.is_ignored(".gz"));
    assert!(!fm.is_ignored("some/dir/.gz"));
}

#[test]
fn only_the_basename_counts() {
    let fm = manager(&[".png"]);
    assert!(fm.is_ignored("a/b/c/image.png"));
    assert!(!fm.is_ignored("a/image.png/readme"));
}

#[test]
fn empty_table_ignores_nothing() {
    let fm = manager(&[]);
    assert!(!fm.is_ignored("archive.tar.gz"));
}

use srcset::walk::{check_extension, classify, digest_path, entry_disposition, is_image_ext, Disposition};

const BIG: u64 = 200 * 1024;
const MIN: u64 = 100 * 1024;

#[test]
fn extensions_in_any_case() {
    assert!(check_extension("jpg"));
    assert!(check_extension("JPG"));
    assert!(check_extension("Tiff"));
    assert!(check_extension("webp"));
    assert!(!check_extension("txt"));
    assert!(!check_extension(""));
    assert!(is_image_ext("png"));
    assert!(!is_image_ext("PNG"));
}

#[test]
fn generated_files_are_not_reprocessed() {
    assert_eq!(digest_path("out/photo/legacy.jpg", BIG, MIN), Disposition::Generated);
    assert_eq!(digest_path("out/photo/320w.jpg", BIG, MIN), Disposition::Generated);
    assert_eq!(digest_path("out/photo/1024w.png", BIG, MIN), Disposition::Generated);
    assert_eq!(digest_path("out/photo/20w.png", BIG, MIN), Disposition::Process);
    assert_eq!(digest_path("out/photo/12345w.png", BIG, MIN), Disposition::Process);
    assert_eq!(digest_path("out/photo/legacy2.png", BIG, MIN), Disposition::Process);
    assert_eq!(digest_path("out/photo/Legacy.png", BIG, MIN), Disposition::Process);
    assert_eq!(digest_path("out/photo/12w.png", BIG, MIN), Disposition::Process);
    assert_eq!(digest_path("out/photo/photo.png", BIG, MIN), Disposition::Process);
    assert_eq!(digest_path("out/photo/srcset.txt", BIG, MIN), Disposition::Ignore);
}

#[test]
fn small_files_are_skipped() {
    assert_eq!(digest_path("in/photo.jpg", MIN, MIN), Disposition::Skip);
    assert_eq!(digest_path("in/photo.jpg", MIN + 1, MIN), Disposition::Process);
    assert_eq!(digest_path("in/legacy.jpg", 10, MIN), Disposition::Skip);
}

#[test]
fn other_files_are_ignored() {
    assert_eq!(digest_path("in/README", BIG, MIN), Disposition::Ignore);
    assert_eq!(digest_path("in/notes.txt", BIG, MIN), Disposition::Ignore);
    assert_eq!(digest_path("in/.png", BIG, MIN), Disposition::Ignore);
    assert_eq!(digest_path("in/photo.PNG", BIG, MIN), Disposition::Process);
}

#[test]
fn classify_takes_the_verdict_given() {
    assert_eq!(classify("a/b.jpg", BIG, MIN, true), Disposition::Generated);
    assert_eq!(classify("a/b.jpg", BIG, MIN, false), Disposition::Process);
    assert_eq!(classify("a/b.doc", BIG, MIN, false), Disposition::Ignore);
    assert_eq!(classify("a/b.jpg", 0, MIN, false), Disposition::Skip);
}

#[test]
fn directories_are_walked_when_recursing() {
    assert_eq!(entry_disposition("in/album", true, 4096, true, MIN), Disposition::Descend);
    assert_eq!(entry_disposition("in/album", true, 4096, false, MIN), Disposition::Ignore);
    assert_eq!(entry_disposition("in/a.jpg", false, BIG, true, MIN), Disposition::Process);
    assert_eq!(entry_disposition("in/x.jpg", true, 10, false, MIN), Disposition::Ignore);
    assert_eq!(entry_disposition("in/x.jpg", true, BIG, false, MIN), Disposition::Ignore);
}

#[test]
fn a_second_run_leaves_outputs_alone() {
    let o = srcset::opts::Opts {
        outpath: "/srv/in/".to_string(),
        prefix: String::new(),
        extension: String::new(),
        is_nested: true,
        is_recurse: true,
        min_size: MIN,
        sizes: Vec::new(),
    };
    let p = srcset::plan::plan_image("album/photo.jpg", 2000, 1000, &o).unwrap();
    assert_eq!(p.variants.len(), 8);
    assert_eq!(digest_path(&p.legacy.path, BIG, MIN), Disposition::Generated);
    for v in &p.variants {
        assert_eq!(digest_path(&v.path, BIG, MIN), Disposition::Generated);
    }
    assert_eq!(digest_path(&p.tag_path, BIG, MIN), Disposition::Ignore);
    assert_eq!(digest_path("/srv/in/album/photo.jpg", BIG, MIN), Disposition::Process);
}

#[test]
fn visiting_counts_entries_and_skips() {
    let o = srcset::opts::Opts {
        outpath: "/out/".to_string(),
        prefix: String::new(),
        extension: String::new(),
        is_nested: false,
        is_recurse: false,
        min_size: MIN,
        sizes: Vec::new(),
    };
    let mut m = srcset::opts::Metrics::new();
    assert_eq!(srcset::walk::visit_entry(&mut m, "in/a.jpg", false, 10, &o), Disposition::Skip);
    assert_eq!(srcset::walk::visit_entry(&mut m, "in/b.jpg", false, BIG, &o), Disposition::Process);
    assert_eq!(srcset::walk::visit_entry(&mut m, "in/sub", true, 4096, &o), Disposition::Ignore);
    assert_eq!(srcset::walk::visit_entry(&mut m, "in/x.jpg", true, 10, &o), Disposition::Ignore);
    assert_eq!((m.traversed, m.skipped, m.count, m.resized), (4, 1, 0, 0));
}

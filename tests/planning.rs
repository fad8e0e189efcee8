use srcset::markup::create_tag;
use srcset::opts::{Metrics, Opts};
use srcset::paths::{file_ext, file_stem, parent_dir, path_from_array, use_fileext};
use srcset::plan::{output_dir, plan_image};
use srcset::sizes::{default_sizes, scaled_height, strip_sizes};

fn opts(outpath: &str, prefix: &str, nested: bool) -> Opts {
    Opts {
        outpath: outpath.to_string(),
        prefix: prefix.to_string(),
        extension: String::new(),
        is_nested: nested,
        is_recurse: true,
        min_size: 100 * 1024,
        sizes: Vec::new(),
    }
}

#[test]
fn selection_keeps_widths_that_fit() {
    let c = vec![320, 480, 640, 768, 960, 1024, 1280, 1440];
    assert_eq!(strip_sizes(1000, &c), Some(vec![320, 480, 640, 768, 960]));
    assert_eq!(strip_sizes(1024, &c), Some(vec![320, 480, 640, 768, 960, 1024]));
    assert_eq!(strip_sizes(320, &c), Some(vec![320]));
    assert_eq!(strip_sizes(5000, &c), Some(c.clone()));
    assert_eq!(strip_sizes(319, &c), None);
    assert_eq!(strip_sizes(1000, &vec![]), None);
}

#[test]
fn default_table_has_eight_widths() {
    assert_eq!(default_sizes(), vec![320, 480, 640, 768, 960, 1024, 1280, 1440]);
}

#[test]
fn heights_are_rounded() {
    assert_eq!(scaled_height(320, 1000, 500), 160);
    assert_eq!(scaled_height(320, 1000, 333), 107);
    assert_eq!(scaled_height(3, 4, 1), 1);
    assert_eq!(scaled_height(1, 4, 1), 0);
    assert_eq!(scaled_height(0, 0, 7), 0);
    assert_eq!(scaled_height(u32::MAX, u32::MAX, u32::MAX), u32::MAX);
}

#[test]
fn paths_join_like_pathbuf() {
    assert_eq!(path_from_array(&["/tmp/srcset/", "photo", "legacy.jpg"]), "/tmp/srcset/photo/legacy.jpg");
    assert_eq!(path_from_array(&["/out", "", "photo"]), "/out/photo");
    assert_eq!(path_from_array(&["", "photo"]), "photo");
    assert_eq!(path_from_array(&[]), "");
    assert_eq!(path_from_array(&["a", ""]), "a/");
    assert_eq!(path_from_array(&["a", "/b"]), "/b");
    assert_eq!(path_from_array(&["/out", "/abs/dir", "photo"]), "/abs/dir/photo");
}

#[test]
fn file_names_are_taken_apart() {
    assert_eq!(parent_dir("album/2020/photo.png"), "album/2020");
    assert_eq!(parent_dir("photo.png"), "");
    assert_eq!(file_stem("album/photo.tar.png"), "photo.tar");
    assert_eq!(file_ext("album/photo.tar.png"), Some("png"));
    assert_eq!(file_stem("album/.hidden"), ".hidden");
    assert_eq!(file_ext("album/.hidden"), None);
    assert_eq!(file_ext("album.d/readme"), None);
    assert_eq!(use_fileext("a/b.png", ""), Some("png"));
    assert_eq!(use_fileext("a/b.png", "webp"), Some("webp"));
    assert_eq!(use_fileext("a/b", ""), None);
}

#[test]
fn output_dirs_follow_layout() {
    assert_eq!(output_dir("/out/", "album/photo.png", true), "/out/album/photo");
    assert_eq!(output_dir("/out/", "album/photo.png", false), "/out/photo");
    assert_eq!(output_dir("/out", "photo.png", true), "/out/photo");
    assert_eq!(output_dir("", "album/photo.png", false), "photo");
}

#[test]
fn plan_for_wide_image() {
    let o = opts("/tmp/srcset/", "", false);
    let p = plan_image("pics/my_image.jpg", 1000, 500, &o).unwrap();
    let widths: Vec<u32> = p.variants.iter().map(|v| v.width).collect();
    assert_eq!(widths, vec![320, 480, 640, 768, 960]);
    let heights: Vec<u32> = p.variants.iter().map(|v| v.height).collect();
    assert_eq!(heights, vec![160, 240, 320, 384, 480]);
    assert_eq!(p.legacy.width, 960);
    assert_eq!(p.legacy.height, 480);
    assert_eq!(p.legacy.path, "/tmp/srcset/my_image/legacy.jpg");
    assert_eq!(p.variants[0].path, "/tmp/srcset/my_image/320w.jpg");
    assert_eq!(p.variants[4].path, "/tmp/srcset/my_image/960w.jpg");
    assert_eq!(p.tag_path, "/tmp/srcset/my_image/srcset.txt");
    assert_eq!(
        p.tag,
        "<img src=\"my_image/legacy.jpg\" srcset=\"my_image/320w.jpg 320w, my_image/480w.jpg 480w, \
         my_image/640w.jpg 640w, my_image/768w.jpg 768w, my_image/960w.jpg 960w\" \
         sizes=\"(max-width:320px) 50vw, (max-width:960px) 75vw, min-width:961px) 95vw\" \
         alt=\"A file named my_image\">"
    );
}

#[test]
fn plan_for_image_as_wide_as_a_breakpoint() {
    let o = opts("/tmp/srcset/", "", false);
    let p = plan_image("my_image.jpg", 1024, 512, &o).unwrap();
    assert_eq!(p.legacy.width, 1024);
    assert_eq!(p.legacy.height, 512);
    assert_eq!(p.variants.len(), 6);
    assert!(p.tag.contains("sizes=\"(max-width:320px) 50vw, (max-width:960px) 75vw, (min-width:961px) 95vw\""));
}

#[test]
fn plan_for_small_image_is_empty() {
    let o = opts("/tmp/srcset/", "", false);
    assert!(plan_image("tiny.png", 200, 200, &o).is_none());
    let mut m = Metrics::new();
    if let Some(p) = plan_image("tiny.png", 200, 200, &o) {
        m.record_image(p.variants.len() as u32);
    }
    assert_eq!(m.count, 0);
    assert_eq!(m.resized, 0);
}

#[test]
fn plan_without_extension_is_empty() {
    let o = opts("/tmp/srcset/", "", false);
    assert!(plan_image("photo", 1000, 500, &o).is_none());
    let mut o2 = opts("/tmp/srcset/", "", false);
    o2.extension = "webp".to_string();
    let p = plan_image("photo", 1000, 500, &o2).unwrap();
    assert_eq!(p.legacy.path, "/tmp/srcset/photo/legacy.webp");
}

#[test]
fn plan_nested_layout() {
    let o = opts("/out/", "/img", true);
    let p = plan_image("album/photo.png", 640, 480, &o).unwrap();
    assert_eq!(p.legacy.path, "/out/album/photo/legacy.png");
    assert_eq!(p.variants[1].path, "/out/album/photo/480w.png");
    assert!(p.tag.starts_with("<img src=\"/img/album/photo/legacy.png\" srcset=\"/img/album/photo/320w.png 320w, /img/album/photo/480w.png 480w, /img/album/photo/640w.png 640w\""));
}

#[test]
fn plan_with_configured_sizes_and_type() {
    let mut o = opts("/out", "", false);
    o.sizes = vec![100, 200, 300];
    o.extension = "png".to_string();
    let p = plan_image("a/b.jpg", 250, 100, &o).unwrap();
    let widths: Vec<u32> = p.variants.iter().map(|v| v.width).collect();
    assert_eq!(widths, vec![100, 200]);
    assert_eq!(p.legacy.path, "/out/b/legacy.png");
    assert_eq!(p.variants[0].height, 40);
    assert_eq!(p.variants[1].height, 80);
}

#[test]
fn markup_paths_parallel_file_paths() {
    let o = opts("/srv/out", "/static", true);
    let p = plan_image("trips/beach.jpg", 800, 400, &o).unwrap();
    for v in &p.variants {
        let rel = v.path.strip_prefix("/srv/out").unwrap();
        let url = format!("/static{} {}w", rel, v.width);
        assert!(p.tag.contains(&url));
    }
    let rel = p.legacy.path.strip_prefix("/srv/out").unwrap();
    assert!(p.tag.contains(&format!("src=\"/static{}\"", rel)));
}

#[test]
fn no_variant_is_wider_than_its_source() {
    let o = opts("/out", "", false);
    for w in [320u32, 321, 999, 1024, 1439, 1440, 5000] {
        let p = plan_image("x.jpg", w, 100, &o).unwrap();
        assert!(p.legacy.width <= w);
        assert!(p.variants.iter().all(|v| v.width <= w));
    }
}

#[test]
fn markup_lists_each_width_once() {
    let t = create_tag(768, "p", "jpg", "n", &vec![320, 480, 768, 1024]);
    assert_eq!(
        t,
        "<img src=\"p/legacy.jpg\" srcset=\"p/320w.jpg 320w, p/480w.jpg 480w, p/768w.jpg 768w\" \
         sizes=\"(max-width:320px) 50vw, (max-width:960px) 75vw, min-width:961px) 95vw\" alt=\"A file named n\">"
    );
    let one = create_tag(320, "p", "png", "n", &vec![320, 480]);
    assert!(one.contains("srcset=\"p/320w.png 320w\""));
    let none = create_tag(100, "p", "png", "n", &vec![320]);
    assert!(none.contains("srcset=\"\""));
}

#[test]
fn markup_sizes_tiers() {
    let hint = |max: u32| {
        let t = create_tag(max, "p", "jpg", "n", &vec![]);
        let start = t.find("sizes=\"").unwrap() + 7;
        let end = t[start..].find('"').unwrap() + start;
        t[start..end].to_string()
    };
    assert_eq!(hint(479), "(max-width:480px) 100vw, min-width:481px) 25vw");
    assert_eq!(hint(480), "(max-width:640px) 100vw, min-width:641px) 33vw");
    assert_eq!(hint(640), "(max-width:320px) 50vw, (max-width:768px) 100vw, min-width:769px) 50vw");
    assert_eq!(hint(960), "(max-width:320px) 50vw, (max-width:960px) 75vw, min-width:961px) 95vw");
    assert_eq!(hint(1024), "(max-width:320px) 50vw, (max-width:960px) 75vw, (min-width:961px) 95vw");
    assert_eq!(hint(1366), "(max-width:320px) 25vw, (min-width: 960px) 75vw, 100vw");
    assert_eq!(hint(1660), "(min-width: 1024px) 50vw, 100vw");
}

#[test]
fn metrics_count_images_and_variants() {
    let mut m = Metrics::new();
    m.record_traversed();
    m.record_traversed();
    m.record_skipped();
    m.record_image(6);
    assert_eq!((m.count, m.resized, m.traversed, m.skipped), (1, 7, 2, 1));
}

#[test]
fn srcset_splits_back_into_its_widths() {
    let t = create_tag(1440, "/img/a", "webp", "a", &vec![320, 480, 640, 768, 960, 1024, 1280, 1440]);
    let start = t.find("srcset=\"").unwrap() + 8;
    let end = t[start..].find('"').unwrap() + start;
    let items: Vec<&str> = t[start..end].split(", ").collect();
    let widths = [320, 480, 640, 768, 960, 1024, 1280, 1440];
    assert_eq!(items.len(), widths.len());
    for (item, w) in items.iter().zip(widths.iter()) {
        assert_eq!(*item, format!("/img/a/{0}w.webp {0}w", w));
    }
}

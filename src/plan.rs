//! Everything decided for one image before any pixel is touched: which
//! variants to make, where each goes, and the markup that lists them.

use vstd::prelude::*;
use crate::labels::{
    decimal, digit_chars, lemma_decimal_digits, legacy_file, legacy_label, tag_file, width_file,
    width_label,
};
use crate::markup::{create_tag, tag};
use crate::opts::Opts;
use crate::paths::{
    ext_of, file_name_of, file_stem, is_absolute, join, lemma_last_index_append, join_all, last_index, lemma_join_all_split,
    lemma_join_last, lemma_stem_has_no_separator, parent_dir, parent_of, path_from_array, path_of,
    push_segment, resolved_ext, stem_of, use_fileext, views,
};
use crate::sizes::{
    default_sizes, default_table, lemma_selected_bounded, scaled_height, scaled_height_of, selected,
    strip_sizes,
};

verus! {

/// The directories under a root that hold the outputs of the image at `rel`
/// (relative to the input root): its own directory too where `nested`, then
/// one named after its stem.
pub open spec fn layout_segs(rel: Seq<char>, nested: bool) -> Seq<Seq<char>> {
    if nested {
        seq![parent_of(rel), stem_of(rel)]
    } else {
        seq![stem_of(rel)]
    }
}

/// The directory under `root` that holds the outputs of the image at `rel`.
pub open spec fn layout_dir(root: Seq<char>, rel: Seq<char>, nested: bool) -> Seq<char> {
    join_all(root, layout_segs(rel, nested))
}

/// The candidate widths in force: the configured ones, or the built-in table.
pub open spec fn table_of(sizes: Seq<u32>) -> Seq<u32> {
    if sizes.len() == 0 {
        default_table()
    } else {
        sizes
    }
}

proof fn lemma_path_of_root(root: Seq<char>, segs: Seq<Seq<char>>)
    ensures
        path_of(seq![root] + segs) == join_all(root, segs),
    decreases segs.len(),
{
    if segs.len() == 0 {
        assert(seq![root] + segs =~= seq![root]);
        assert(seq![root].drop_last() =~= Seq::<Seq<char>>::empty());
        assert(path_of(seq![root]) == join(path_of(Seq::empty()), root));
    } else {
        let all = seq![root] + segs;
        assert(all.drop_last() =~= seq![root] + segs.drop_last());
        assert(all.last() == segs.last());
        lemma_path_of_root(root, segs.drop_last());
        assert(path_of(all) == join(path_of(all.drop_last()), all.last()));
    }
}

/// The directory under `root` for the outputs of the image at `rel`.
pub fn output_dir(root: &str, rel: &str, nested: bool) -> (r: String)
    ensures
        r@ == layout_dir(root@, rel@, nested),
{
    let stem = file_stem(rel);
    if nested {
        let parent = parent_dir(rel);
        let parts = [root, parent, stem];
        let r = path_from_array(&parts);
        proof {
            assert(views(parts@) =~= seq![root@] + layout_segs(rel@, nested));
            lemma_path_of_root(root@, layout_segs(rel@, nested));
        }
        r
    } else {
        let parts = [root, stem];
        let r = path_from_array(&parts);
        proof {
            assert(views(parts@) =~= seq![root@] + layout_segs(rel@, nested));
            lemma_path_of_root(root@, layout_segs(rel@, nested));
        }
        r
    }
}


proof fn lemma_layout_parallel_label(
    root: Seq<char>,
    prefix: Seq<char>,
    rel: Seq<char>,
    nested: bool,
    label: Seq<char>,
)
    requires
        stem_of(rel).len() > 0,
        !is_absolute(label),
    ensures
        ({
            let suffix = path_of(layout_segs(rel, nested).push(label));
            &&& join(layout_dir(root, rel, nested), label) == join(root, suffix)
            &&& layout_dir(prefix, rel, nested) + "/"@ + label == join(prefix, suffix)
        }),
{
    let segs = layout_segs(rel, nested);
    let all = segs.push(label);
    assert(all.drop_last() =~= segs);
    assert(all.last() == label);
    assert(join_all(root, all) == join(join_all(root, segs), label));
    assert(join_all(prefix, all) == join(join_all(prefix, segs), label));
    lemma_join_all_split(root, all);
    lemma_join_all_split(prefix, all);
    let stem = stem_of(rel);
    lemma_stem_has_no_separator(rel);
    assert(stem[stem.len() - 1] != '/');
    assert(segs.last() == stem);
    assert(join_all(prefix, segs) == join(join_all(prefix, segs.drop_last()), stem));
    lemma_join_last(join_all(prefix, segs.drop_last()), stem);
    reveal_strlit("/");
}

/// A generated file and the URL the markup gives it differ only in their
/// roots: below the output root and below the markup prefix stands the same
/// relative path, for either layout, for the fallback variant and for the
/// variant of any width.
pub proof fn lemma_layout_parallel(
    root: Seq<char>,
    prefix: Seq<char>,
    rel: Seq<char>,
    nested: bool,
    w: u32,
    ext: Seq<char>,
)
    requires
        stem_of(rel).len() > 0,
    ensures
        ({
            let suffix = path_of(layout_segs(rel, nested).push(width_label(w, ext)));
            &&& join(layout_dir(root, rel, nested), width_label(w, ext)) == join(root, suffix)
            &&& layout_dir(prefix, rel, nested) + "/"@ + width_label(w, ext) == join(prefix, suffix)
        }),
        ({
            let suffix = path_of(layout_segs(rel, nested).push(legacy_label(ext)));
            &&& join(layout_dir(root, rel, nested), legacy_label(ext)) == join(root, suffix)
            &&& layout_dir(prefix, rel, nested) + "/"@ + legacy_label(ext) == join(prefix, suffix)
        }),
{
    lemma_decimal_digits(w as nat);
    let d = decimal(w as nat);
    assert(width_label(w, ext)[0] == d[0]);
    assert(digit_chars().contains(d[0]));
    reveal_strlit("legacy.");
    assert(legacy_label(ext)[0] == 'l');
    lemma_layout_parallel_label(root, prefix, rel, nested, width_label(w, ext));
    lemma_layout_parallel_label(root, prefix, rel, nested, legacy_label(ext));
}

/// A file name without separators, joined onto a directory, is again the
/// file name of the result.
proof fn lemma_file_name_of_join(dir: Seq<char>, label: Seq<char>)
    requires
        forall|k: int| 0 <= k < label.len() ==> label[k] != '/',
    ensures
        file_name_of(join(dir, label)) == label,
{
    let pre = if dir.len() == 0 {
        dir
    } else if dir.last() == '/' {
        dir
    } else {
        dir + seq!['/']
    };
    assert(!is_absolute(label));
    assert(join(dir, label) =~= pre + label);
    lemma_last_index_append(pre, label, '/');
    if pre.len() > 0 {
        assert(pre.last() == '/');
    }
    assert(last_index(pre, '/') == pre.len() - 1);
    assert((pre + label).subrange(pre.len() as int, (pre + label).len() as int) =~= label);
}

/// `head` then a dot then `ext`, where `head` is not empty and `ext` holds no
/// dot: `head` is the stem and `ext` the extension.
proof fn lemma_split_at_dot(dir: Seq<char>, head: Seq<char>, ext: Seq<char>)
    requires
        head.len() > 0,
        forall|k: int| 0 <= k < head.len() ==> head[k] != '/',
        forall|k: int| 0 <= k < ext.len() ==> ext[k] != '.' && ext[k] != '/',
    ensures
        stem_of(join(dir, head + seq!['.'] + ext)) == head,
        ext_of(join(dir, head + seq!['.'] + ext)) == Some(ext),
{
    let label = head + seq!['.'] + ext;
    assert forall|k: int| 0 <= k < label.len() implies label[k] != '/' by {
        if k < head.len() {
            assert(label[k] == head[k]);
        } else if k > head.len() {
            assert(label[k] == ext[k - head.len() - 1]);
        }
    }
    lemma_file_name_of_join(dir, label);
    lemma_last_index_append(head + seq!['.'], ext, '.');
    assert(label =~= (head + seq!['.']) + ext);
    assert(last_index(head + seq!['.'], '.') == head.len());
    assert(label.subrange(0, head.len() as int) =~= head);
    assert(label.subrange(head.len() as int + 1, label.len() as int) =~= ext);
}

/// Every generated variant is named for what it is: the stem of a width
/// variant is its width followed by `w`, that of the fallback is `legacy`,
/// and both keep the chosen extension. `walk::digest_path` never processes a
/// file whose stem `GENERATED_PATTERN` matches, and that pattern covers
/// `legacy` and widths of three or four digits; so when a later run walks the
/// output tree, it passes over these outputs for any such width (a width of
/// fewer or more digits gives a stem the pattern does not match).
pub proof fn lemma_outputs_named_as_generated(dir: Seq<char>, w: u32, ext: Seq<char>)
    requires
        forall|k: int| 0 <= k < ext.len() ==> ext[k] != '.' && ext[k] != '/',
    ensures
        stem_of(join(dir, width_label(w, ext))) == decimal(w as nat) + "w"@,
        ext_of(join(dir, width_label(w, ext))) == Some(ext),
        stem_of(join(dir, legacy_label(ext))) == "legacy"@,
        ext_of(join(dir, legacy_label(ext))) == Some(ext),
{
    reveal_strlit("w.");
    reveal_strlit("w");
    reveal_strlit("legacy.");
    reveal_strlit("legacy");
    lemma_decimal_digits(w as nat);
    let d = decimal(w as nat);
    let head = d + "w"@;
    assert(d.len() > 0);
    assert forall|k: int| 0 <= k < head.len() implies head[k] != '/' by {
        if k < d.len() {
            assert(digit_chars().contains(d[k]));
            assert(head[k] == d[k]);
        }
    }
    assert(width_label(w, ext) =~= head + seq!['.'] + ext);
    lemma_split_at_dot(dir, head, ext);
    let lhead = "legacy"@;
    assert(legacy_label(ext) =~= lhead + seq!['.'] + ext);
    lemma_split_at_dot(dir, lhead, ext);
}

/// One output image: where it goes and its dimensions.
pub struct Variant {
    pub path: String,
    pub width: u32,
    pub height: u32,
}

/// What is to be made of one image.
pub struct ImagePlan {
    /// The fallback variant, at the largest selected width.
    pub legacy: Variant,
    /// One variant for each selected width, ascending as the candidates are.
    pub variants: Vec<Variant>,
    /// The markup describing the variants.
    pub tag: String,
    /// Where the markup is written.
    pub tag_path: String,
}

/// `v` is the variant `t` pixels wide of a `w` by `h` image, stored in `dir`
/// under the name `label`.
pub open spec fn variant_is(v: Variant, dir: Seq<char>, label: Seq<char>, t: u32, w: u32, h: u32) -> bool {
    &&& v.path@ == join(dir, label)
    &&& v.width == t
    &&& v.height == scaled_height_of(t as int, w as int, h as int)
}

/// The widths to generate for an image `width` pixels wide.
pub open spec fn plan_widths(width: u32, opts: &Opts) -> Seq<u32> {
    selected(width, table_of(opts.sizes@))
}

/// Whether an image gets no outputs at all: no candidate fits it, or no
/// format can be told for its outputs.
pub open spec fn plan_is_empty(rel: Seq<char>, width: u32, opts: &Opts) -> bool {
    plan_widths(width, opts).len() == 0 || resolved_ext(rel, opts.extension@) is None
}

/// `p` is the plan for the `width` by `height` image at `rel`.
pub open spec fn plan_is(p: ImagePlan, rel: Seq<char>, width: u32, height: u32, opts: &Opts) -> bool {
    let ws = plan_widths(width, opts);
    let ext = resolved_ext(rel, opts.extension@)->0;
    let dir = layout_dir(opts.outpath@, rel, opts.is_nested);
    let legacy = ws.last();
    &&& p.variants@.len() == ws.len()
    &&& forall|i: int|
        0 <= i < ws.len() ==> variant_is(
            #[trigger] p.variants@[i],
            dir,
            width_label(ws[i], ext),
            ws[i],
            width,
            height,
        )
    &&& variant_is(p.legacy, dir, legacy_label(ext), legacy, width, height)
    &&& p.tag@ == tag(legacy, layout_dir(opts.prefix@, rel, opts.is_nested), ext, stem_of(rel), table_of(opts.sizes@))
    &&& p.tag_path@ == join(dir, "srcset.txt"@)
}

fn make_variant(dir: &String, file: String, t: u32, w: u32, h: u32) -> (r: Variant)
    requires
        t <= w,
    ensures
        variant_is(r, dir@, file@, t, w, h),
{
    let mut path = dir.clone();
    push_segment(&mut path, file.as_str());
    Variant { path, width: t, height: scaled_height(t, w, h) }
}

/// Plan the outputs of the `width` by `height` image at `rel`, a path relative
/// to the input root; `None` where it gets none.
pub fn plan_image(rel: &str, width: u32, height: u32, opts: &Opts) -> (r: Option<ImagePlan>)
    ensures
        r is None <==> plan_is_empty(rel@, width, opts),
        r is Some ==> plan_is(r->0, rel@, width, height, opts),
        r is Some ==> r->0.legacy.width <= width,
        r is Some ==> forall|i: int|
            0 <= i < r->0.variants@.len() ==> #[trigger] r->0.variants@[i].width <= width,
{
    let dflt = default_sizes();
    let table: &Vec<u32> = if opts.sizes.len() == 0 {
        &dflt
    } else {
        &opts.sizes
    };
    assert(table@ == table_of(opts.sizes@));
    let ext = match use_fileext(rel, opts.extension.as_str()) {
        None => {
            return None;
        },
        Some(e) => e,
    };
    let ws = match strip_sizes(width, table) {
        None => {
            return None;
        },
        Some(v) => v,
    };
    proof {
        lemma_selected_bounded(width, table@);
    }
    let dir = output_dir(opts.outpath.as_str(), rel, opts.is_nested);
    let max = ws[ws.len() - 1];
    let legacy = make_variant(&dir, legacy_file(ext), max, width, height);
    let mut variants: Vec<Variant> = Vec::new();
    let mut i: usize = 0;
    while i < ws.len()
        invariant
            i <= ws.len(),
            ws@ == plan_widths(width, opts),
            forall|k: int| 0 <= k < ws.len() ==> ws[k] <= width,
            variants@.len() == i,
            forall|k: int|
                0 <= k < i ==> variant_is(
                    #[trigger] variants@[k],
                    dir@,
                    width_label(ws[k], ext@),
                    ws[k],
                    width,
                    height,
                ),
        decreases ws.len() - i,
    {
        let v = make_variant(&dir, width_file(ws[i], ext), ws[i], width, height);
        variants.push(v);
        i = i + 1;
    }
    let url = output_dir(opts.prefix.as_str(), rel, opts.is_nested);
    let stem = file_stem(rel);
    let tag_text = create_tag(max, url.as_str(), ext, stem, table);
    let mut tag_path = dir.clone();
    push_segment(&mut tag_path, tag_file());
    Some(ImagePlan { legacy, variants, tag: tag_text, tag_path })
}

} // verus!

//! Joining path segments and taking file names apart, on `/`-separated text.

use vstd::prelude::*;

verus! {

/// Whether `p` starts at the root.
pub open spec fn is_absolute(p: Seq<char>) -> bool {
    p.len() > 0 && p[0] == '/'
}

/// `b` appended to `a` as one more path segment: a separator is put between
/// them unless `a` is empty or already ends in one. A `b` that starts at the
/// root replaces `a` altogether.
pub open spec fn join(a: Seq<char>, b: Seq<char>) -> Seq<char> {
    if is_absolute(b) {
        b
    } else if a.len() == 0 {
        b
    } else if a.last() == '/' {
        a + b
    } else {
        a + seq!['/'] + b
    }
}

/// `root` with each of `segs` joined on in turn.
pub open spec fn join_all(root: Seq<char>, segs: Seq<Seq<char>>) -> Seq<char>
    decreases segs.len(),
{
    if segs.len() == 0 {
        root
    } else {
        join(join_all(root, segs.drop_last()), segs.last())
    }
}

/// The path made of `segs`, starting from an empty one.
pub open spec fn path_of(segs: Seq<Seq<char>>) -> Seq<char> {
    join_all(Seq::empty(), segs)
}

/// The views of a slice of string slices.
pub open spec fn views(a: Seq<&str>) -> Seq<Seq<char>> {
    a.map_values(|s: &str| s@)
}

/// A joined path starts as its first part does, unless the second replaces it.
pub proof fn lemma_join_first(a: Seq<char>, b: Seq<char>)
    requires
        a.len() > 0,
        !is_absolute(b),
    ensures
        join(a, b).len() > 0,
        join(a, b)[0] == a[0],
{
}

/// Joining is associative: where a path is split into a root and the rest
/// makes no difference.
pub proof fn lemma_join_assoc(a: Seq<char>, b: Seq<char>, c: Seq<char>)
    ensures
        join(join(a, b), c) == join(a, join(b, c)),
{
    if is_absolute(c) {
        assert(join(b, c) == c);
    } else if is_absolute(b) {
        lemma_join_first(b, c);
        assert(is_absolute(join(b, c)));
    } else {
        if b.len() > 0 {
            lemma_join_first(b, c);
        } else {
            assert(join(b, c) == c);
        }
        assert(!is_absolute(join(b, c)));
        if a.len() > 0 {
            let pre = if a.last() == '/' { a } else { a + seq!['/'] };
            assert(join(a, b) == pre + b);
            assert(join(a, join(b, c)) == pre + join(b, c));
            assert(pre.len() > 0 && pre.last() == '/');
            if b.len() == 0 {
                assert(pre + b =~= pre);
            } else {
                assert((pre + b).last() == b.last());
                if b.last() == '/' {
                    assert((pre + b) + c =~= pre + (b + c));
                } else {
                    assert((pre + b) + seq!['/'] + c =~= pre + (b + seq!['/'] + c));
                }
            }
        }
    }
}

/// A root followed by at least one segment is the root joined with the path
/// that the segments make on their own.
pub proof fn lemma_join_all_split(root: Seq<char>, segs: Seq<Seq<char>>)
    requires
        segs.len() > 0,
    ensures
        join_all(root, segs) == join(root, path_of(segs)),
    decreases segs.len(),
{
    if segs.len() == 1 {
        assert(segs.drop_last().len() == 0);
        assert(join_all(root, segs.drop_last()) == root);
        assert(join_all(Seq::empty(), segs.drop_last()) == Seq::<char>::empty());
        assert(path_of(segs) == join(Seq::<char>::empty(), segs.last()));
    } else {
        lemma_join_all_split(root, segs.drop_last());
        lemma_join_assoc(root, path_of(segs.drop_last()), segs.last());
        assert(path_of(segs) == join(path_of(segs.drop_last()), segs.last()));
    }
}

/// Append `seg` to the path held in `acc` as one more segment.
pub fn push_segment(acc: &mut String, seg: &str)
    ensures
        final(acc)@ == join(old(acc)@, seg@),
{
    if seg.unicode_len() > 0 && seg.get_char(0) == '/' {
        *acc = String::from_str(seg);
        return;
    }
    let n = acc.as_str().unicode_len();
    if n == 0 {
        acc.append(seg);
    } else if acc.as_str().get_char(n - 1) == '/' {
        acc.append(seg);
    } else {
        acc.append("/");
        proof {
            reveal_strlit("/");
        }
        acc.append(seg);
    }
}

/// The path made by joining each string of `array` in turn onto an empty path.
pub fn path_from_array(array: &[&str]) -> (r: String)
    ensures
        r@ == path_of(views(array@)),
{
    let mut pb = String::new();
    let mut i: usize = 0;
    while i < array.len()
        invariant
            i <= array.len(),
            pb@ == path_of(views(array@.subrange(0, i as int))),
        decreases array.len() - i,
    {
        assert(views(array@.subrange(0, i as int + 1)).drop_last() =~= views(
            array@.subrange(0, i as int),
        ));
        push_segment(&mut pb, array[i]);
        i = i + 1;
    }
    assert(array@.subrange(0, array.len() as int) =~= array@);
    pb
}


/// The index of the last `c` in `s`, or -1 where `s` holds none.
pub open spec fn last_index(s: Seq<char>, c: char) -> int
    decreases s.len(),
{
    if s.len() == 0 {
        -1
    } else if s.last() == c {
        s.len() - 1
    } else {
        last_index(s.drop_last(), c)
    }
}

proof fn lemma_last_index_bounds(s: Seq<char>, c: char)
    ensures
        -1 <= last_index(s, c) < s.len(),
        last_index(s, c) >= 0 ==> s[last_index(s, c)] == c,
    decreases s.len(),
{
    if s.len() > 0 && s.last() != c {
        lemma_last_index_bounds(s.drop_last(), c);
    }
}

/// No `c` stands after the last one.
pub proof fn lemma_none_after_last(s: Seq<char>, c: char)
    ensures
        forall|k: int| last_index(s, c) < k < s.len() ==> s[k] != c,
    decreases s.len(),
{
    lemma_last_index_bounds(s, c);
    if s.len() > 0 && s.last() != c {
        lemma_none_after_last(s.drop_last(), c);
        lemma_last_index_bounds(s.drop_last(), c);
        assert forall|k: int| last_index(s, c) < k < s.len() implies s[k] != c by {
            if k < s.len() - 1 {
                assert(s.drop_last()[k] == s[k]);
            }
        }
    }
}

/// A stem holds no separator.
pub proof fn lemma_stem_has_no_separator(p: Seq<char>)
    ensures
        forall|k: int| 0 <= k < stem_of(p).len() ==> stem_of(p)[k] != '/',
{
    lemma_last_index_bounds(p, '/');
    lemma_none_after_last(p, '/');
    let name = file_name_of(p);
    lemma_last_index_bounds(name, '.');
    assert forall|k: int| 0 <= k < stem_of(p).len() implies stem_of(p)[k] != '/' by {
        assert(stem_of(p)[k] == name[k]);
        assert(name[k] == p[last_index(p, '/') + 1 + k]);
    }
}

/// Joining a segment that does not end in a separator gives a path that
/// does not either.
pub proof fn lemma_join_last(a: Seq<char>, b: Seq<char>)
    requires
        b.len() > 0,
    ensures
        join(a, b).len() > 0,
        join(a, b).last() == b.last(),
{
}

/// Text holding no `c` leaves the last `c` where it was.
pub proof fn lemma_last_index_append(a: Seq<char>, b: Seq<char>, c: char)
    requires
        forall|k: int| 0 <= k < b.len() ==> b[k] != c,
    ensures
        last_index(a + b, c) == last_index(a, c),
    decreases b.len(),
{
    if b.len() > 0 {
        assert((a + b).drop_last() =~= a + b.drop_last());
        assert((a + b).last() == b[b.len() - 1]);
        lemma_last_index_append(a, b.drop_last(), c);
    } else {
        assert(a + b =~= a);
    }
}

/// Where the last `c` in `s` stands, if anywhere.
fn find_last(s: &str, c: char) -> (r: Option<usize>)
    ensures
        last_index(s@, c) < 0 <==> r is None,
        r is Some ==> r->0 as int == last_index(s@, c),
{
    let n = s.unicode_len();
    let mut found: Option<usize> = None;
    let mut i: usize = 0;
    while i < n
        invariant
            i <= n,
            n == s@.len(),
            last_index(s@.subrange(0, i as int), c) < 0 <==> found is None,
            found is Some ==> found->0 as int == last_index(s@.subrange(0, i as int), c),
        decreases n - i,
    {
        assert(s@.subrange(0, i as int + 1).drop_last() =~= s@.subrange(0, i as int));
        if s.get_char(i) == c {
            found = Some(i);
        }
        i = i + 1;
    }
    assert(s@.subrange(0, n as int) =~= s@);
    found
}

/// The directory part of `p`: what comes before its last separator, or
/// nothing where it has none.
pub open spec fn parent_of(p: Seq<char>) -> Seq<char> {
    if last_index(p, '/') < 0 {
        Seq::empty()
    } else {
        p.subrange(0, last_index(p, '/'))
    }
}

/// The last segment of `p`.
pub open spec fn file_name_of(p: Seq<char>) -> Seq<char> {
    p.subrange(last_index(p, '/') + 1, p.len() as int)
}

/// The file name of `p` without its extension. A dot that begins the name
/// starts no extension.
pub open spec fn stem_of(p: Seq<char>) -> Seq<char> {
    let name = file_name_of(p);
    if last_index(name, '.') <= 0 {
        name
    } else {
        name.subrange(0, last_index(name, '.'))
    }
}

/// What follows the last dot of the file name of `p`, where it has one that
/// does not begin the name.
pub open spec fn ext_of(p: Seq<char>) -> Option<Seq<char>> {
    let name = file_name_of(p);
    if last_index(name, '.') <= 0 {
        None
    } else {
        Some(name.subrange(last_index(name, '.') + 1, name.len() as int))
    }
}

/// The directory that holds the file `p` names.
pub fn parent_dir(p: &str) -> (r: &str)
    ensures
        r@ == parent_of(p@),
{
    proof {
        lemma_last_index_bounds(p@, '/');
    }
    match find_last(p, '/') {
        None => {
            let r = p.substring_char(0, 0);
            assert(r@ =~= Seq::<char>::empty());
            r
        },
        Some(i) => {
            p.substring_char(0, i)
        },
    }
}

/// The last segment of `p`.
pub fn file_name(p: &str) -> (r: &str)
    ensures
        r@ == file_name_of(p@),
{
    proof {
        lemma_last_index_bounds(p@, '/');
    }
    let n = p.unicode_len();
    match find_last(p, '/') {
        None => p.substring_char(0, n),
        Some(i) => p.substring_char(i + 1, n),
    }
}

/// The name of the file `p` names, without its extension.
pub fn file_stem(p: &str) -> (r: &str)
    ensures
        r@ == stem_of(p@),
{
    let name = file_name(p);
    proof {
        lemma_last_index_bounds(name@, '.');
    }
    match find_last(name, '.') {
        Some(i) => {
            if i > 0 {
                name.substring_char(0, i)
            } else {
                name
            }
        },
        None => name,
    }
}

/// The extension of the file `p` names, if it has one.
pub fn file_ext(p: &str) -> (r: Option<&str>)
    ensures
        ext_of(p@) is None ==> r is None,
        ext_of(p@) is Some ==> r is Some && r->0@ == ext_of(p@)->0,
{
    let name = file_name(p);
    proof {
        lemma_last_index_bounds(name@, '.');
    }
    let n = name.unicode_len();
    match find_last(name, '.') {
        Some(i) => {
            if i > 0 {
                Some(name.substring_char(i + 1, n))
            } else {
                None
            }
        },
        None => None,
    }
}

/// The extension the outputs made from `path` are written in: `ext` where it
/// is given, else the extension of `path` itself.
pub open spec fn resolved_ext(path: Seq<char>, ext: Seq<char>) -> Option<Seq<char>> {
    if ext.len() == 0 {
        ext_of(path)
    } else {
        Some(ext)
    }
}

/// Choose between the file's own extension and the configured one; `None`
/// where neither is there.
pub fn use_fileext<'a>(path: &'a str, ext: &'a str) -> (r: Option<&'a str>)
    ensures
        resolved_ext(path@, ext@) is None ==> r is None,
        resolved_ext(path@, ext@) is Some ==> r is Some && r->0@ == resolved_ext(path@, ext@)->0,
{
    if ext.unicode_len() == 0 {
        file_ext(path)
    } else {
        Some(ext)
    }
}

} // verus!

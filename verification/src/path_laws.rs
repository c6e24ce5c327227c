//! How the two ways of telling a child mount agree: by whole path components, as the listing does,
//! and by text, as the relative path does.

use vstd::prelude::*;
use vstd::utf8::*;

use crate::paths;

verus! {

/// A relative path starts with a slash and is what has to be appended to the root to get the mount
/// point, but for its first slash where the root ends in one and no other follows.
pub proof fn relative_path_completes_root(root: Seq<char>, point: Seq<char>, relative: Seq<char>)
    ensures
        paths::relative_path(root, point) == Some(relative) <==> {
            &&& relative.len() > 0
            &&& relative[0] == '/'
            &&& {
                ||| point == root + relative
                ||| {
                    &&& root.len() > 0 && root.last() == '/'
                    &&& relative.len() > 1
                    &&& relative[1] != '/'
                    &&& point == root + relative.skip(1)
                }
            }
        },
{
    let n = root.len() as int;
    let rest = point.skip(n);
    if root.is_prefix_of(point) {
        assert(point =~= root + rest);
        if rest.len() == 0 {
            assert(point =~= root);
        }
        if relative == seq!['/'] + rest {
            assert(relative.skip(1) =~= rest);
        }
    }
    if point == root + relative {
        assert(rest =~= relative);
        assert(root =~= point.subrange(0, n));
    }
    if relative.len() > 1 && relative[0] == '/' && point == root + relative.skip(1) {
        assert(rest =~= relative.skip(1));
        assert(root =~= point.subrange(0, n));
        assert(seq!['/'] + rest =~= relative);
    }
}

/// Relative paths compose: what lies below `middle`, which itself lies below `root`, lies below
/// `root` by the two relative paths one after the other. The one exception is a `middle` that ends
/// in a slash which `point` does not follow with another.
pub proof fn relative_paths_compose(root: Seq<char>, middle: Seq<char>, point: Seq<char>)
    requires
        paths::relative_path(root, middle) is Some,
        paths::relative_path(middle, point) is Some,
        paths::ends_in_slash(middle) ==> point[middle.len() as int] == '/',
    ensures
        paths::relative_path(root, point) == Some(
            paths::relative_path(root, middle)->0 + paths::relative_path(middle, point)->0,
        ),
{
    let first = paths::relative_path(root, middle)->0;
    let second = paths::relative_path(middle, point)->0;
    relative_path_completes_root(root, middle, first);
    relative_path_completes_root(middle, point, second);
    assert(point == middle + second);
    assert(root + first + second =~= root + (first + second));
    if middle != root + first {
        assert(root + first.skip(1) + second =~= root + (first + second).skip(1));
    }
    relative_path_completes_root(root, point, first + second);
}

/// Where `middle` ends in a slash which `point` does not follow with another, the two relative
/// paths share that slash.
pub proof fn relative_paths_share_a_slash(root: Seq<char>, middle: Seq<char>, point: Seq<char>)
    requires
        paths::relative_path(root, middle) is Some,
        paths::relative_path(middle, point) is Some,
        paths::ends_in_slash(middle),
        point[middle.len() as int] != '/',
    ensures
        paths::relative_path(root, point) == Some(
            paths::relative_path(root, middle)->0 + paths::relative_path(middle, point)->0.skip(1),
        ),
{
    let first = paths::relative_path(root, middle)->0;
    let second = paths::relative_path(middle, point)->0;
    relative_path_completes_root(root, middle, first);
    relative_path_completes_root(middle, point, second);
    let more = second.skip(1);
    assert(point == middle + more);
    assert(root + first + more =~= root + (first + more));
    if middle != root + first {
        assert(root + first.skip(1) + more =~= root + (first + more).skip(1));
    }
    relative_path_completes_root(root, point, first + more);
}

proof fn lemma_encode_concat(a: Seq<char>, b: Seq<char>)
    ensures
        encode_utf8(a + b) == encode_utf8(a) + encode_utf8(b),
    decreases a.len(),
{
    if a.len() == 0 {
        assert(a + b =~= b);
        assert(encode_utf8(a) + encode_utf8(b) =~= encode_utf8(b));
    } else {
        lemma_encode_concat(a.drop_first(), b);
        assert((a + b).drop_first() =~= a.drop_first() + b);
        assert(encode_utf8(a + b) =~= encode_utf8(a) + encode_utf8(b));
    }
}

/// A slash between two texts is a slash between their bytes.
proof fn lemma_encode_slash(a: Seq<char>, b: Seq<char>)
    ensures
        encode_utf8(a + seq!['/'] + b) == encode_utf8(a) + seq![paths::SLASH] + encode_utf8(b),
{
    let slash: Seq<char> = seq!['/'];
    lemma_encode_concat(a, slash);
    lemma_encode_concat(a + slash, b);
    assert(is_ascii_chars(slash));
    is_ascii_chars_encode_utf8(slash);
    assert(slash[0] as u8 == encode_utf8(slash)[0]);
    assert('/' as u8 == 47u8);
    assert(encode_utf8(slash) =~= seq![paths::SLASH]);
}

proof fn lemma_segments_concat(a: Seq<u8>, b: Seq<u8>)
    ensures
        paths::segments(a + seq![paths::SLASH] + b) == paths::segments(a) + paths::segments(b),
        paths::segments(a).len() > 0,
        paths::segments(b).len() > 0,
    decreases b.len(),
{
    paths::lemma_segments_nonempty(a);
    paths::lemma_segments_nonempty(b);
    let whole = a + seq![paths::SLASH] + b;
    if b.len() == 0 {
        assert(whole.drop_last() =~= a);
        assert(paths::segments(whole) =~= paths::segments(a) + paths::segments(b));
    } else {
        lemma_segments_concat(a, b.drop_last());
        assert(whole.drop_last() =~= a + seq![paths::SLASH] + b.drop_last());
        assert(paths::segments(whole) =~= paths::segments(a) + paths::segments(b));
    }
}

/// Appending a slash and more to a path that is not empty appends to its components.
proof fn lemma_components_concat(a: Seq<u8>, b: Seq<u8>)
    requires
        a.len() > 0,
    ensures
        paths::components(a + seq![paths::SLASH] + b) == paths::components(a) + paths::segments(
            b,
        ).filter(|s: Seq<u8>| paths::is_named(s)),
{
    let named = |s: Seq<u8>| paths::is_named(s);
    let whole = a + seq![paths::SLASH] + b;
    lemma_segments_concat(a, b);
    Seq::filter_distributes_over_add(paths::segments(a), paths::segments(b), named);
    assert(whole[0] == a[0]);
    assert(paths::segments(whole)[0] == paths::segments(a)[0]);
    assert(paths::components(whole) =~= paths::components(a) + paths::segments(b).filter(named));
}

/// Whatever has a relative path below a root is the root or below it by components too.
pub proof fn relative_path_stays_below(root: Seq<char>, point: Seq<char>)
    requires
        paths::relative_path(root, point) is Some,
    ensures
        paths::components(encode_utf8(root)).is_prefix_of(paths::components(encode_utf8(point))),
{
    let n = root.len() as int;
    let rest = point.skip(n);
    assert(point =~= root + rest);
    if rest[0] == '/' {
        let after = rest.skip(1);
        assert(point =~= root + seq!['/'] + after);
        lemma_encode_slash(root, after);
        if encode_utf8(root).len() == 0 {
            assert(encode_utf8(root) =~= seq![]);
            lemma_bare_components();
        } else {
            lemma_components_concat(encode_utf8(root), encode_utf8(after));
        }
    } else {
        let base = root.drop_last();
        let e = encode_utf8(base);
        assert(root =~= base + seq!['/'] + seq![]);
        assert(point =~= base + seq!['/'] + rest);
        lemma_encode_slash(base, seq![]);
        lemma_encode_slash(base, rest);
        if e.len() == 0 {
            assert(encode_utf8(root) =~= seq![paths::SLASH]);
            lemma_bare_components();
        } else {
            lemma_components_concat(e, encode_utf8(rest));
            lemma_components_concat(e, seq![]);
            reveal_with_fuel(Seq::filter, 2);
        }
    }
}

/// The empty path has no components, and a slash alone has the root.
proof fn lemma_bare_components()
    ensures
        paths::components(seq![]) == Seq::<Seq<u8>>::empty(),
        paths::components(seq![paths::SLASH]) == seq![seq![paths::SLASH]],
{
    let none: Seq<u8> = seq![];
    reveal_with_fuel(Seq::filter, 3);
    assert(paths::segments(none) =~= seq![none]);
    assert(paths::components(none) =~= seq![]);
    lemma_segments_concat(none, none);
    assert(none + seq![paths::SLASH] + none =~= seq![paths::SLASH]);
    assert(paths::segments(seq![paths::SLASH]) =~= seq![none, none]);
    assert(seq![none, none].drop_last() =~= seq![none]);
    assert(paths::components(seq![paths::SLASH]) =~= seq![seq![paths::SLASH]]);
}

/// Whether a path is written as the kernel reports mount points: from the root down, with one
/// slash before each name and no `.` among them. The root itself is a slash alone.
pub open spec fn is_canonical(path: Seq<u8>) -> bool {
    path == seq![paths::SLASH] || has_canonical_names(path)
}

/// Whether a path leads from the root to a name, with one slash before each name on the way.
pub open spec fn has_canonical_names(path: Seq<u8>) -> bool {
    let parts = paths::segments(path);
    &&& parts.len() >= 2
    &&& parts[0].len() == 0
    &&& forall|i: int| 1 <= i < parts.len() ==> paths::is_named(#[trigger] parts[i])
}

/// The path whose segments these are.
spec fn unsplit(parts: Seq<Seq<u8>>) -> Seq<u8>
    decreases parts.len(),
{
    if parts.len() == 0 {
        seq![]
    } else if parts.len() == 1 {
        parts[0]
    } else {
        unsplit(parts.drop_last()) + seq![paths::SLASH] + parts.last()
    }
}

proof fn lemma_unsplit_segments(path: Seq<u8>)
    ensures
        unsplit(paths::segments(path)) == path,
    decreases path.len(),
{
    if path.len() > 0 {
        let head = path.drop_last();
        let before = paths::segments(head);
        let parts = paths::segments(path);
        lemma_unsplit_segments(head);
        paths::lemma_segments_nonempty(head);
        if path.last() == paths::SLASH {
            assert(parts.drop_last() =~= before);
            assert(unsplit(parts) =~= path);
        } else {
            assert(parts.drop_last() =~= before.drop_last());
            assert(unsplit(parts) =~= unsplit(before).push(path.last()));
            assert(path =~= head.push(path.last()));
        }
    }
}

proof fn lemma_unsplit_concat(a: Seq<Seq<u8>>, b: Seq<Seq<u8>>)
    requires
        a.len() > 0,
        b.len() > 0,
    ensures
        unsplit(a + b) == unsplit(a) + seq![paths::SLASH] + unsplit(b),
    decreases b.len(),
{
    assert((a + b).drop_last() =~= a + b.drop_last());
    if b.len() == 1 {
        assert(a + b.drop_last() =~= a);
    } else {
        lemma_unsplit_concat(a, b.drop_last());
        assert(unsplit(a + b) =~= unsplit(a) + seq![paths::SLASH] + unsplit(b));
    }
}

proof fn lemma_filter_all(parts: Seq<Seq<u8>>)
    requires
        forall|i: int| 0 <= i < parts.len() ==> paths::is_named(#[trigger] parts[i]),
    ensures
        parts.filter(|s: Seq<u8>| paths::is_named(s)) == parts,
    decreases parts.len(),
{
    reveal(Seq::filter);
    if parts.len() > 0 {
        lemma_filter_all(parts.drop_last());
        assert(parts =~= parts.drop_last().push(parts.last()));
    }
}

/// A canonical path with names has the root and then its names as components.
proof fn lemma_canonical_components(path: Seq<u8>)
    requires
        has_canonical_names(path),
    ensures
        paths::components(path) == seq![seq![paths::SLASH]] + paths::segments(path).skip(1),
        path == seq![paths::SLASH] + unsplit(paths::segments(path).skip(1)),
{
    let named = |s: Seq<u8>| paths::is_named(s);
    let parts = paths::segments(path);
    let first = parts.take(1);
    let names = parts.skip(1);
    assert(parts =~= first + names);
    lemma_unsplit_segments(path);
    lemma_unsplit_concat(first, names);
    assert(unsplit(first) =~= seq![]);
    assert(path =~= seq![paths::SLASH] + unsplit(names));
    assert(path[0] == paths::SLASH);
    Seq::filter_distributes_over_add(first, names, named);
    lemma_filter_all(names);
    assert(first.filter(named) =~= seq![]) by {
        reveal_with_fuel(Seq::filter, 2);
    }
    assert(paths::components(path) =~= seq![seq![paths::SLASH]] + names);
}

/// Where the bytes of a mount point continue those of some text with a slash, the mount point
/// continues the text itself with one.
proof fn lemma_split_at_slash(base: Seq<char>, point: Seq<char>, y: Seq<u8>) -> (z: Seq<char>)
    requires
        encode_utf8(point) == encode_utf8(base) + seq![paths::SLASH] + y,
    ensures
        point == base + (seq!['/'] + z),
{
    let p = encode_utf8(point);
    let n = encode_utf8(base).len() as int;
    let tail = seq![paths::SLASH] + y;
    encode_utf8_valid_utf8(point);
    is_char_boundary_iff_not_is_continuation_byte(p, n);
    assert(p[n] == paths::SLASH);
    valid_utf8_split(p, n);
    assert(p.subrange(n, p.len() as int) =~= tail);
    assert(tail[0] == 47u8);
    assert(pop_first_scalar(tail) =~= y);
    assert(valid_utf8(y));
    let z = decode_utf8(y);
    decode_utf8_encode_utf8(y);
    lemma_encode_slash(base, z);
    encode_utf8_decode_utf8(point);
    encode_utf8_decode_utf8(base + seq!['/'] + z);
    assert(base + (seq!['/'] + z) =~= base + seq!['/'] + z);
    z
}

/// Where the root and the mount points are written canonically, every listed child mount has a
/// relative path, so none of them is passed over.
pub proof fn canonical_child_has_relative_path(
    root: Seq<char>,
    mounts: Seq<Seq<u8>>,
    point: Seq<char>,
)
    requires
        is_canonical(encode_utf8(root)),
        is_canonical(encode_utf8(point)),
        paths::is_child_mount(root, mounts, point),
    ensures
        paths::relative_path(root, point) is Some,
{
    let r = encode_utf8(root);
    let p = encode_utf8(point);
    let rs = paths::segments(r);
    let ps = paths::segments(p);
    let rc = paths::components(r);
    let pc = paths::components(p);
    lemma_bare_components();
    if rc.len() == pc.len() {
        assert(rc =~= pc);
    }
    if has_canonical_names(r) {
        lemma_canonical_components(r);
    }
    assert(has_canonical_names(p));
    lemma_canonical_components(p);
    if r == seq![paths::SLASH] {
        let none: Seq<char> = seq![];
        let y = unsplit(ps.skip(1));
        lemma_encode_slash(none, none);
        assert(none + seq!['/'] + none =~= seq!['/']);
        assert(encode_utf8(seq!['/']) =~= r);
        encode_utf8_decode_utf8(root);
        encode_utf8_decode_utf8(seq!['/']);
        assert(encode_utf8(none) + seq![paths::SLASH] + y =~= p);
        lemma_split_at_slash(none, point, y);
        assert(root =~= point.subrange(0, 1));
    } else {
        let more = ps.skip(rs.len() as int);
        assert(ps =~= rs + more) by {
            assert forall|i: int| 0 <= i < rs.len() implies ps[i] == rs[i] by {
                if i == 0 {
                    assert(ps[0] =~= rs[0]);
                } else {
                    assert(pc[i] == ps.skip(1)[i - 1]);
                    assert(rc[i] == rs.skip(1)[i - 1]);
                    assert(pc[i] == rc[i]);
                }
            }
        }
        lemma_unsplit_segments(r);
        lemma_unsplit_segments(p);
        lemma_unsplit_concat(rs, more);
        let z = lemma_split_at_slash(root, point, unsplit(more));
        relative_path_completes_root(root, point, seq!['/'] + z);
    }
}

/// The path that starts with `first` and goes on with a slash before each of `names`.
pub open spec fn path_of(first: Seq<u8>, names: Seq<Seq<u8>>) -> Seq<u8> {
    names.fold_left(first, |path: Seq<u8>, name: Seq<u8>| path + seq![47u8] + name)
}

/// The names that lead anywhere: those that are neither empty nor a single dot.
pub open spec fn leading(names: Seq<Seq<u8>>) -> Seq<Seq<u8>> {
    names.filter(|name: Seq<u8>| name.len() > 0 && name != seq![46u8])
}

proof fn lemma_segments_of_name(name: Seq<u8>)
    requires
        !name.contains(47u8),
    ensures
        paths::segments(name) == seq![name],
    decreases name.len(),
{
    if name.len() > 0 {
        let head = name.drop_last();
        assert(!head.contains(47u8)) by {
            if head.contains(47u8) {
                let i = choose|i: int| 0 <= i < head.len() && head[i] == 47u8;
                assert(name[i] == 47u8);
            }
        }
        lemma_segments_of_name(head);
        assert(name[name.len() - 1] != 47u8);
        assert(head.push(name.last()) =~= name);
    } else {
        assert(name =~= seq![]);
    }
    assert(paths::segments(name) =~= seq![name]);
}

proof fn lemma_segments_of_path(first: Seq<u8>, names: Seq<Seq<u8>>)
    requires
        !first.contains(47u8),
        forall|i: int| 0 <= i < names.len() ==> !(#[trigger] names[i]).contains(47u8),
    ensures
        paths::segments(path_of(first, names)) == seq![first] + names,
        first.len() > 0 ==> path_of(first, names).len() > 0 && path_of(first, names)[0] == first[0],
        first.len() == 0 && names.len() > 0 ==> path_of(first, names).len() > 0 && path_of(
            first,
            names,
        )[0] == 47u8,
    decreases names.len(),
{
    if names.len() == 0 {
        lemma_segments_of_name(first);
        assert(seq![first] + names =~= seq![first]);
    } else {
        let head = names.drop_last();
        assert forall|i: int| 0 <= i < head.len() implies !(#[trigger] head[i]).contains(47u8) by {
            assert(head[i] == names[i]);
        }
        lemma_segments_of_path(first, head);
        assert(!names[names.len() - 1].contains(47u8));
        lemma_segments_of_name(names.last());
        lemma_segments_concat(path_of(first, head), names.last());
        assert(path_of(first, names) == path_of(first, head) + seq![47u8] + names.last());
        assert(seq![first] + names =~= seq![first] + head + seq![names.last()]);
        if first.len() == 0 && head.len() == 0 {
            assert(path_of(first, head) == first);
        }
    }
}

/// What a path leads through: the root where it starts with a slash, else its first name, and then
/// each name between its slashes that is neither empty nor a single dot, in order. Every path is of
/// this form.
pub proof fn components_are_the_leading_names(first: Seq<u8>, names: Seq<Seq<u8>>)
    requires
        !first.contains(47u8),
        forall|i: int| 0 <= i < names.len() ==> !(#[trigger] names[i]).contains(47u8),
    ensures
        paths::components(path_of(first, names)) == if first.len() > 0 {
            seq![first] + leading(names)
        } else if names.len() > 0 {
            seq![seq![47u8]] + leading(names)
        } else {
            seq![]
        },
{
    let path = path_of(first, names);
    let named = |s: Seq<u8>| paths::is_named(s);
    let plain = |name: Seq<u8>| name.len() > 0 && name != seq![46u8];
    lemma_segments_of_path(first, names);
    assert(named =~= plain);
    let one = seq![first];
    Seq::filter_distributes_over_add(one, names, named);
    reveal_with_fuel(Seq::filter, 2);
    assert(one.drop_last() =~= seq![]);
    assert(one.filter(named) =~= if paths::is_named(first) {
        one
    } else {
        seq![]
    });
    assert(paths::segments(path)[0] == first);
    if first.len() > 0 {
        assert(path[0] != 47u8) by {
            assert(first[0] == path[0]);
            if first[0] == 47u8 {
                assert(first.contains(47u8));
            }
        }
        assert(paths::components(path) =~= seq![first] + leading(names));
    } else if names.len() > 0 {
        assert(paths::components(path) =~= seq![seq![47u8]] + leading(names));
    } else {
        assert(path == first);
        assert(paths::components(path) =~= seq![]);
    }
}

/// One path from the root lies below another exactly where it leads through all names of the other
/// first, and then through at least one more.
pub proof fn below_is_decided_by_leading_names(root: Seq<Seq<u8>>, point: Seq<Seq<u8>>)
    requires
        root.len() > 0,
        point.len() > 0,
        forall|i: int| 0 <= i < root.len() ==> !(#[trigger] root[i]).contains(47u8),
        forall|i: int| 0 <= i < point.len() ==> !(#[trigger] point[i]).contains(47u8),
    ensures
        paths::is_below(path_of(seq![], point), path_of(seq![], root)) <==> leading(root).len()
            < leading(point).len() && leading(point).take(leading(root).len() as int) == leading(
            root,
        ),
{
    let none: Seq<u8> = seq![];
    components_are_the_leading_names(none, root);
    components_are_the_leading_names(none, point);
    let r = leading(root);
    let p = leading(point);
    let rc = paths::components(path_of(none, root));
    let pc = paths::components(path_of(none, point));
    assert(rc == seq![seq![47u8]] + r);
    assert(pc == seq![seq![47u8]] + p);
    if rc.is_prefix_of(pc) {
        assert(p.take(r.len() as int) =~= r) by {
            assert forall|i: int| 0 <= i < r.len() implies p[i] == r[i] by {
                assert(rc[i + 1] == pc[i + 1]);
            }
        }
        if r.len() == p.len() {
            assert(rc =~= pc);
        }
    }
    if r.len() < p.len() && p.take(r.len() as int) == r {
        assert(rc =~= pc.subrange(0, rc.len() as int)) by {
            assert forall|i: int| 0 <= i < rc.len() implies rc[i] == pc[i] by {
                if i > 0 {
                    assert(r[i - 1] == p.take(r.len() as int)[i - 1]);
                }
            }
        }
    }
}

/// The listing holds exactly the mount points that lead through all that the root leads through, and
/// then through more.
pub proof fn listing_holds_what_leads_below(root: Seq<char>, mounts: Seq<Seq<u8>>, point: Seq<char>)
    ensures
        paths::child_listing(root, mounts).contains(point) <==> {
            let r = paths::components(encode_utf8(root));
            let p = paths::components(encode_utf8(point));
            &&& mounts.contains(encode_utf8(point))
            &&& r.len() < p.len()
            &&& p.take(r.len() as int) == r
        },
{
    paths::child_listing_exists(root, mounts);
    let r = paths::components(encode_utf8(root));
    let p = paths::components(encode_utf8(point));
    assert(paths::child_listing(root, mounts).contains(point) <==> paths::is_child_mount(
        root,
        mounts,
        point,
    ));
    if r.is_prefix_of(p) {
        assert(p.take(r.len() as int) =~= p.subrange(0, r.len() as int));
        if r.len() == p.len() {
            assert(r =~= p);
        }
    }
    if r.len() < p.len() && p.take(r.len() as int) == r {
        assert(p.take(r.len() as int) =~= p.subrange(0, r.len() as int));
    }
}

proof fn lemma_less_by_difference(a: Seq<u8>, b: Seq<u8>) -> (k: int)
    requires
        paths::bytes_less(a, b),
    ensures
        0 <= k <= a.len(),
        k < b.len(),
        forall|i: int| 0 <= i < k ==> a[i] == b[i],
        k == a.len() || a[k] < b[k],
    decreases a.len(),
{
    if a.len() == 0 || a[0] != b[0] {
        0
    } else {
        let k = lemma_less_by_difference(a.drop_first(), b.drop_first());
        assert forall|i: int| 0 <= i < k + 1 implies a[i] == b[i] by {
            if i > 0 {
                assert(a.drop_first()[i - 1] == b.drop_first()[i - 1]);
            }
        }
        k + 1
    }
}

/// Whether one byte string comes before another: where they differ first it has the smaller byte, or
/// it ends there.
pub open spec fn comes_first(a: Seq<u8>, b: Seq<u8>) -> bool {
    exists|k: int|
        {
            &&& 0 <= k <= a.len()
            &&& k < b.len()
            &&& #[trigger] a.take(k) == b.take(k)
            &&& k == a.len() || a[k] < b[k]
        }
}

/// The listing is sorted by bytes, and so it holds each mount point once.
pub proof fn listing_is_sorted(root: Seq<char>, mounts: Seq<Seq<u8>>, i: int, j: int)
    requires
        0 <= i < j < paths::child_listing(root, mounts).len(),
    ensures
        ({
            let list = paths::child_listing(root, mounts);
            &&& comes_first(encode_utf8(list[i]), encode_utf8(list[j]))
            &&& list[i] != list[j]
        }),
{
    let list = paths::child_listing(root, mounts);
    paths::child_listing_exists(root, mounts);
    let a = encode_utf8(list[i]);
    let b = encode_utf8(list[j]);
    assert(paths::text_less(list[i], list[j]));
    let k = lemma_less_by_difference(a, b);
    assert(a.take(k) =~= b.take(k));
    if a == b {
        assert(k < a.len());
    }
}

/// Where the root and a mount point are written canonically, a mount point that has a relative path
/// below the root is in the listing: none of them is missed.
pub proof fn canonical_descendant_is_listed(
    root: Seq<char>,
    mounts: Seq<Seq<u8>>,
    point: Seq<char>,
)
    requires
        is_canonical(encode_utf8(root)),
        is_canonical(encode_utf8(point)),
        mounts.contains(encode_utf8(point)),
        paths::relative_path(root, point) is Some,
    ensures
        paths::child_listing(root, mounts).contains(point),
{
    let r = encode_utf8(root);
    let p = encode_utf8(point);
    relative_path_stays_below(root, point);
    lemma_bare_components();
    assert(paths::components(p) != paths::components(r)) by {
        if paths::components(p) == paths::components(r) {
            lemma_canonical_is_its_components(r);
            lemma_canonical_is_its_components(p);
            assert(r == p);
            encode_utf8_decode_utf8(root);
            encode_utf8_decode_utf8(point);
        }
    }
    paths::child_listing_exists(root, mounts);
    assert(paths::is_child_mount(root, mounts, point));
}

/// A canonical path can be told from its components.
proof fn lemma_canonical_is_its_components(path: Seq<u8>)
    requires
        is_canonical(path),
    ensures
        paths::components(path).len() > 0,
        paths::components(path).len() == 1 ==> path == seq![paths::SLASH],
        paths::components(path).len() > 1 ==> path == seq![paths::SLASH] + unsplit(
            paths::components(path).skip(1),
        ),
{
    lemma_bare_components();
    if path != seq![paths::SLASH] {
        lemma_canonical_components(path);
        assert(paths::components(path).skip(1) =~= paths::segments(path).skip(1));
    }
}

/// Whatever mount point goes on after the root, which is not empty, with a slash and a name is in the
/// listing, however the root and the rest are written. A name here is not empty and no single dot.
pub proof fn root_with_a_name_is_listed(
    root: Seq<char>,
    mounts: Seq<Seq<u8>>,
    point: Seq<char>,
    name: Seq<u8>,
    more: Seq<u8>,
)
    requires
        encode_utf8(root).len() > 0,
        encode_utf8(point) == encode_utf8(root) + seq![47u8] + (name + more),
        !name.contains(47u8),
        name.len() > 0,
        name != seq![46u8],
        more.len() > 0 ==> more[0] == 47u8,
        mounts.contains(encode_utf8(point)),
    ensures
        paths::child_listing(root, mounts).contains(point),
{
    let r = encode_utf8(root);
    let named = |s: Seq<u8>| paths::is_named(s);
    let rest = name + more;
    lemma_components_concat(r, rest);
    lemma_segments_of_name(name);
    reveal_with_fuel(Seq::filter, 2);
    let one = seq![name];
    assert(one.drop_last() =~= seq![]);
    assert(one.filter(named) =~= one);
    if more.len() == 0 {
        assert(rest =~= name);
    } else {
        let after = more.skip(1);
        assert(rest =~= name + seq![47u8] + after);
        lemma_segments_concat(name, after);
        Seq::filter_distributes_over_add(one, paths::segments(after), named);
    }
    let added = paths::segments(rest).filter(named);
    assert(added.len() > 0);
    let rc = paths::components(r);
    let pc = paths::components(encode_utf8(point));
    assert(pc == rc + added);
    assert(pc.take(rc.len() as int) =~= rc);
    listing_holds_what_leads_below(root, mounts, point);
}

/// What the contracts see of a list of byte strings is the bytes of each of them.
pub proof fn byte_lists_are_those_of_the_vectors(list: Seq<Vec<u8>>)
    ensures
        paths::byte_lists(list).len() == list.len(),
        forall|i: int| 0 <= i < list.len() ==> #[trigger] paths::byte_lists(list)[i] == list[i]@,
{
}

} // verus!

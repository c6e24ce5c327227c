//! Mount points below a root, as paths of the host see them.

use vstd::prelude::*;
use vstd::utf8::*;

use crate::text;

verus! {

/// The byte that separates the segments of a path.
pub const SLASH: u8 = 47;

/// The byte that alone makes the segment for the current directory.
pub const DOT: u8 = 46;

/// `String::from_utf8` gives the string whose UTF-8 encoding the bytes are, and fails exactly
/// when they are not valid UTF-8.
#[verifier::external_body]
fn utf8_string(bytes: Vec<u8>) -> (s: Option<String>)
    ensures
        match s {
            Some(t) => encode_utf8(t@) == bytes@,
            None => !valid_utf8(bytes@),
        },
{
    String::from_utf8(bytes).ok()
}

/// The contents of a list of byte strings.
pub open spec fn byte_lists(list: Seq<Vec<u8>>) -> Seq<Seq<u8>> {
    list.map_values(|v: Vec<u8>| v@)
}

/// What stands between the slashes of a path, empty segments included.
pub open spec fn segments(path: Seq<u8>) -> Seq<Seq<u8>>
    decreases path.len(),
{
    if path.len() == 0 {
        seq![seq![]]
    } else {
        let before = segments(path.drop_last());
        if path.last() == SLASH {
            before.push(seq![])
        } else {
            before.drop_last().push(before.last().push(path.last()))
        }
    }
}

/// Whether a segment leads anywhere: it is neither empty nor the current directory.
pub open spec fn is_named(segment: Seq<u8>) -> bool {
    segment.len() > 0 && segment != seq![DOT]
}

/// Where a path starts: at the root, explicitly at the current directory, or at neither.
pub open spec fn start_component(path: Seq<u8>) -> Seq<Seq<u8>> {
    if path.len() > 0 && path[0] == SLASH {
        seq![seq![SLASH]]
    } else if segments(path)[0] == seq![DOT] {
        seq![seq![DOT]]
    } else {
        seq![]
    }
}

/// The components of a path: repeated and trailing slashes do not count, nor does `.` after the
/// start.
pub open spec fn components(path: Seq<u8>) -> Seq<Seq<u8>> {
    start_component(path) + segments(path).filter(|s: Seq<u8>| is_named(s))
}

/// Whether `path` lies strictly below `root`, compared by whole components.
pub open spec fn is_below(path: Seq<u8>, root: Seq<u8>) -> bool {
    &&& components(root).is_prefix_of(components(path))
    &&& components(path) != components(root)
}

/// The order of byte strings by their first difference; a proper prefix comes first.
pub open spec fn bytes_less(a: Seq<u8>, b: Seq<u8>) -> bool
    decreases a.len(),
{
    if b.len() == 0 {
        false
    } else if a.len() == 0 {
        true
    } else if a[0] != b[0] {
        a[0] < b[0]
    } else {
        bytes_less(a.drop_first(), b.drop_first())
    }
}

/// The order of strings, which is that of their bytes.
pub open spec fn text_less(a: Seq<char>, b: Seq<char>) -> bool {
    bytes_less(encode_utf8(a), encode_utf8(b))
}

/// Whether a list of texts is in ascending order without repetition.
pub open spec fn ascending(list: Seq<Seq<char>>) -> bool {
    forall|i: int, j: int| 0 <= i < j < list.len() ==> text_less(list[i], list[j])
}

/// Whether `point` is one of `mounts` and lies below `root`.
pub open spec fn is_child_mount(
    root: Seq<char>,
    mounts: Seq<Seq<u8>>,
    point: Seq<char>,
) -> bool {
    mounts.contains(encode_utf8(point)) && is_below(encode_utf8(point), encode_utf8(root))
}

/// Whether `list` holds exactly the child mounts of `root`, each once, in ascending order. Mount
/// points that are not valid UTF-8 have no place in it.
pub open spec fn is_child_listing(
    root: Seq<char>,
    mounts: Seq<Seq<u8>>,
    list: Seq<Seq<char>>,
) -> bool {
    &&& ascending(list)
    &&& forall|point: Seq<char>|
        list.contains(point) <==> #[trigger] is_child_mount(root, mounts, point)
}

/// The child mounts of `root`, each once, in ascending order.
pub open spec fn child_listing(root: Seq<char>, mounts: Seq<Seq<u8>>) -> Seq<Seq<char>> {
    choose|list: Seq<Seq<char>>| is_child_listing(root, mounts, list)
}

/// Whether a path ends in a slash.
pub open spec fn ends_in_slash(path: Seq<char>) -> bool {
    path.len() > 0 && path.last() == '/'
}

/// What is left of `point` after `root`, where that starts with a slash. Where `root` ends in a
/// slash and no other follows, the two paths share that one.
pub open spec fn relative_path(root: Seq<char>, point: Seq<char>) -> Option<Seq<char>> {
    let rest = point.skip(root.len() as int);
    if point == root || !root.is_prefix_of(point) {
        None
    } else if rest[0] == '/' {
        Some(rest)
    } else if ends_in_slash(root) {
        Some(seq!['/'] + rest)
    } else {
        None
    }
}

/// Computes a sub-mount's path relative to the root mountpoint; `None` when it is not a descendant.
/// It starts with a slash, whether or not the root ends in one.
pub fn child_relative_path(root: &str, mount_point: &str) -> (relative: Option<String>)
    ensures
        text::opt_text(relative) == relative_path(root@, mount_point@),
{
    let mut rest = mount_point.chars();
    let mut slash: bool = false;
    for c in it: root.chars()
        invariant
            it.seq() == root@,
            it.index() <= mount_point@.len(),
            vstd::std_specs::iter::IteratorSpec::remaining(&rest) == mount_point@.skip(it.index() as int),
            root@.take(it.index() as int) == mount_point@.take(it.index() as int),
            slash == ends_in_slash(root@.take(it.index() as int)),
    {
        let ghost i = it.index() as int;
        match rest.next() {
            Some(d) => {
                if c != d {
                    assert(root@[i] != mount_point@[i]);
                    return None;
                }
                assert(root@.take(i + 1) =~= root@.take(i).push(c));
                assert(mount_point@.take(i + 1) =~= mount_point@.take(i).push(c));
                assert(mount_point@.skip(i).drop_first() =~= mount_point@.skip(i + 1));
                slash = c == '/';
            },
            None => {
                return None;
            },
        }
    }
    let ghost n = root@.len() as int;
    assert(root@.take(n) =~= root@);
    assert(root@.is_prefix_of(mount_point@)) by {
        assert(mount_point@.take(n) =~= mount_point@.subrange(0, n));
    }
    match rest.next() {
        Some(c) => {
            let mut relative: String = String::new();
            if c != '/' {
                if !slash {
                    return None;
                }
                relative.push('/');
            }
            let ghost lead = relative@;
            relative.push(c);
            let ghost mut k: int = n + 1;
            assert(mount_point@.skip(n).drop_first() =~= mount_point@.skip(k));
            assert(relative@ =~= lead + mount_point@.subrange(n, k));
            loop
                invariant
                    0 <= n < k <= mount_point@.len(),
                    vstd::std_specs::iter::IteratorSpec::remaining(&rest) == mount_point@.skip(k),
                    relative@ == lead + mount_point@.subrange(n, k),
                ensures
                    relative@ == lead + mount_point@.skip(n),
                decreases mount_point@.len() - k,
            {
                match rest.next() {
                    Some(d) => {
                        relative.push(d);
                        proof {
                            assert(mount_point@.skip(k).drop_first() =~= mount_point@.skip(k + 1));
                            assert(relative@ =~= lead + mount_point@.subrange(n, k + 1));
                            k = k + 1;
                        }
                    },
                    None => {
                        assert(k == mount_point@.len());
                        assert(relative@ =~= lead + mount_point@.skip(n));
                        break;
                    },
                }
            }
            proof {
                if c == '/' {
                    assert(relative@ =~= mount_point@.skip(n));
                } else {
                    assert(lead =~= seq!['/']);
                }
            }
            Some(relative)
        },
        None => {
            assert(mount_point@ =~= root@);
            None
        },
    }
}

/// Splits a path at its slashes.
fn split_segments(path: &[u8]) -> (list: Vec<Vec<u8>>)
    ensures
        byte_lists(list@) == segments(path@),
{
    let mut list: Vec<Vec<u8>> = Vec::new();
    let mut current: Vec<u8> = Vec::new();
    assert(path@.take(0) =~= seq![]);
    assert(byte_lists(list@).push(current@) =~= segments(path@.take(0)));
    for i in 0..path.len()
        invariant
            byte_lists(list@).push(current@) == segments(path@.take(i as int)),
    {
        let ghost before = byte_lists(list@);
        let ghost open = current@;
        proof {
            assert(path@.take(i + 1).drop_last() =~= path@.take(i as int));
            assert(before.push(open).drop_last() =~= before);
            assert(before.push(open).last() == open);
        }
        if path[i] == SLASH {
            list.push(current);
            current = Vec::new();
            assert(byte_lists(list@) =~= before.push(open));
            assert(current@ =~= seq![]);
        } else {
            current.push(path[i]);
        }
    }
    list.push(current);
    proof {
        assert(path@.take(path@.len() as int) =~= path@);
        assert(byte_lists(list@) =~= segments(path@));
    }
    list
}

pub(crate) proof fn lemma_segments_nonempty(path: Seq<u8>)
    ensures
        segments(path).len() > 0,
    decreases path.len(),
{
    if path.len() > 0 {
        lemma_segments_nonempty(path.drop_last());
    }
}

fn is_dot(segment: &Vec<u8>) -> (dot: bool)
    ensures
        dot == (segment@ == seq![DOT]),
{
    let dot: bool = segment.len() == 1 && segment[0] == DOT;
    assert(dot ==> segment@ =~= seq![DOT]);
    dot
}

/// The components of a path.
fn path_components(path: &[u8]) -> (list: Vec<Vec<u8>>)
    ensures
        byte_lists(list@) == components(path@),
{
    let mut list: Vec<Vec<u8>> = Vec::new();
    let split: Vec<Vec<u8>> = split_segments(path);
    proof {
        lemma_segments_nonempty(path@);
        assert(byte_lists(split@)[0] == split@[0]@);
    }
    if path.len() > 0 && path[0] == SLASH {
        list.push(vec![SLASH]);
        assert(list@[0]@ =~= seq![SLASH]);
    } else if is_dot(&split[0]) {
        list.push(vec![DOT]);
        assert(list@[0]@ =~= seq![DOT]);
    }
    assert(byte_lists(list@) =~= start_component(path@));
    let ghost named = |s: Seq<u8>| is_named(s);
    let ghost all = byte_lists(split@);
    proof {
        reveal(Seq::filter);
        assert(all.take(0).filter(named) =~= seq![]);
        assert(byte_lists(list@) =~= start_component(path@) + all.take(0).filter(named));
    }
    for segment in it: split
        invariant
            all == segments(path@),
            all == byte_lists(it.seq()),
            named == (|s: Seq<u8>| is_named(s)),
            byte_lists(list@) == start_component(path@) + all.take(it.index() as int).filter(named),
    {
        let ghost i = it.index() as int;
        let ghost before = byte_lists(list@);
        proof {
            reveal(Seq::filter);
            assert(all[i] == segment@);
            assert(all.take(i + 1).drop_last() =~= all.take(i));
            assert(all.take(i + 1).last() == segment@);
        }
        if segment.len() > 0 && !is_dot(&segment) {
            list.push(segment);
            assert(byte_lists(list@) =~= before.push(segment@));
            assert(byte_lists(list@) =~= start_component(path@) + all.take(i + 1).filter(named));
        }
    }
    assert(all.take(all.len() as int) =~= all);
    list
}

/// Whether a path lies strictly below another, compared by whole components.
fn lies_below(path: &[u8], root: &[u8]) -> (below: bool)
    ensures
        below == is_below(path@, root@),
{
    let inner: Vec<Vec<u8>> = path_components(path);
    let outer: Vec<Vec<u8>> = path_components(root);
    let ghost a = components(path@);
    let ghost b = components(root@);
    if inner.len() <= outer.len() {
        proof {
            if b.is_prefix_of(a) {
                assert(a =~= b);
            }
        }
        return false;
    }
    for i in 0..outer.len()
        invariant
            outer@.len() < inner@.len(),
            a == byte_lists(inner@),
            b == byte_lists(outer@),
            a == components(path@),
            b == components(root@),
            b.take(i as int) == a.take(i as int),
    {
        if !(inner[i] == outer[i]) {
            proof {
                assert(a[i as int] == inner@[i as int]@);
                assert(b[i as int] == outer@[i as int]@);
                assert(inner@[i as int]@ != outer@[i as int]@);
                if b.is_prefix_of(a) {
                    assert(b[i as int] == a[i as int]);
                }
            }
            return false;
        }
        proof {
            assert(inner@[i as int]@ =~= outer@[i as int]@);
            assert(a.take(i + 1) =~= a.take(i as int).push(inner@[i as int]@));
            assert(b.take(i + 1) =~= b.take(i as int).push(outer@[i as int]@));
        }
    }
    proof {
        assert(b.take(b.len() as int) =~= b);
        assert(a.take(b.len() as int) =~= a.subrange(0, b.len() as int));
    }
    true
}

proof fn lemma_less_irreflexive(a: Seq<u8>)
    ensures
        !bytes_less(a, a),
    decreases a.len(),
{
    if a.len() > 0 {
        lemma_less_irreflexive(a.drop_first());
    }
}

proof fn lemma_less_transitive(a: Seq<u8>, b: Seq<u8>, c: Seq<u8>)
    requires
        bytes_less(a, b),
        bytes_less(b, c),
    ensures
        bytes_less(a, c),
    decreases a.len(),
{
    if a.len() > 0 && a[0] == b[0] && b[0] == c[0] {
        lemma_less_transitive(a.drop_first(), b.drop_first(), c.drop_first());
    }
}

proof fn lemma_less_total(a: Seq<u8>, b: Seq<u8>)
    ensures
        bytes_less(a, b) || bytes_less(b, a) || a == b,
    decreases a.len(),
{
    if a.len() == 0 || b.len() == 0 {
        if a.len() == b.len() {
            assert(a =~= b);
        }
    } else if a[0] == b[0] {
        lemma_less_total(a.drop_first(), b.drop_first());
        if a.drop_first() == b.drop_first() {
            assert(a =~= seq![a[0]] + a.drop_first());
            assert(b =~= seq![b[0]] + b.drop_first());
        }
    }
}

/// A text is determined by its bytes.
proof fn lemma_encoding_injective(a: Seq<char>, b: Seq<char>)
    requires
        encode_utf8(a) == encode_utf8(b),
    ensures
        a == b,
{
    encode_utf8_decode_utf8(a);
    encode_utf8_decode_utf8(b);
}

/// An ascending list is determined by what it contains.
pub proof fn ascending_lists_agree(a: Seq<Seq<char>>, b: Seq<Seq<char>>)
    requires
        ascending(a),
        ascending(b),
        forall|t: Seq<char>| a.contains(t) <==> b.contains(t),
    ensures
        a == b,
    decreases a.len(),
{
    if a.len() == 0 {
        if b.len() > 0 {
            assert(b.contains(b[0]));
        }
        assert(a =~= b);
    } else {
        assert(a.contains(a.last()));
        assert(b.len() > 0);
        assert(b.contains(b.last()));
        let x = a.last();
        let y = b.last();
        assert(x == y) by {
            if x != y {
                let i = choose|i: int| 0 <= i < b.len() && b[i] == x;
                let j = choose|j: int| 0 <= j < a.len() && a[j] == y;
                assert(text_less(b[i], b[b.len() - 1]));
                assert(text_less(a[j], a[a.len() - 1]));
                lemma_less_transitive(encode_utf8(x), encode_utf8(y), encode_utf8(x));
                lemma_less_irreflexive(encode_utf8(x));
            }
        }
        let a2 = a.drop_last();
        let b2 = b.drop_last();
        assert forall|t: Seq<char>| a2.contains(t) <==> b2.contains(t) by {
            if a2.contains(t) {
                let i = choose|i: int| 0 <= i < a2.len() && a2[i] == t;
                assert(a[i] == t);
                assert(a.contains(t));
                let k = choose|k: int| 0 <= k < b.len() && b[k] == t;
                if k == b.len() - 1 {
                    assert(text_less(a[i], a[a.len() - 1]));
                    lemma_less_irreflexive(encode_utf8(t));
                }
                assert(b2[k] == t);
            }
            if b2.contains(t) {
                let i = choose|i: int| 0 <= i < b2.len() && b2[i] == t;
                assert(b[i] == t);
                assert(b.contains(t));
                let k = choose|k: int| 0 <= k < a.len() && a[k] == t;
                if k == a.len() - 1 {
                    assert(text_less(b[i], b[b.len() - 1]));
                    lemma_less_irreflexive(encode_utf8(t));
                }
                assert(a2[k] == t);
            }
        }
        ascending_lists_agree(a2, b2);
        assert(a =~= a2.push(x));
        assert(b =~= b2.push(y));
    }
}

/// There is only one listing of the child mounts.
pub proof fn child_listing_is_unique(
    root: Seq<char>,
    mounts: Seq<Seq<u8>>,
    list: Seq<Seq<char>>,
)
    requires
        is_child_listing(root, mounts, list),
    ensures
        list == child_listing(root, mounts),
{
    let other = child_listing(root, mounts);
    assert forall|t: Seq<char>| list.contains(t) <==> other.contains(t) by {
        assert(list.contains(t) <==> is_child_mount(root, mounts, t));
    }
    ascending_lists_agree(list, other);
}

proof fn lemma_insert_exists(list: Seq<Seq<char>>, item: Seq<char>) -> (more: Seq<Seq<char>>)
    requires
        ascending(list),
    ensures
        ascending(more),
        forall|t: Seq<char>| #[trigger] more.contains(t) <==> list.contains(t) || t == item,
    decreases list.len(),
{
    if list.len() == 0 {
        let more = seq![item];
        assert(more[0] == item);
        more
    } else {
        let head = list.drop_last();
        let last = list.last();
        assert(list[list.len() - 1] == last);
        assert(list =~= head.push(last));
        assert forall|t: Seq<char>| #[trigger] list.contains(t) <==> head.contains(t) || t
            == last by {
            if head.contains(t) {
                let k = choose|k: int| 0 <= k < head.len() && head[k] == t;
                assert(list[k] == t);
            }
            if list.contains(t) && t != last {
                let k = choose|k: int| 0 <= k < list.len() && list[k] == t;
                assert(head[k] == t);
            }
        }
        if item == last {
            list
        } else if text_less(last, item) {
            let more = list.push(item);
            assert forall|i: int, j: int| 0 <= i < j < more.len() implies text_less(
                more[i],
                more[j],
            ) by {
                if j == list.len() && i < list.len() - 1 {
                    assert(text_less(list[i], list[list.len() - 1]));
                    lemma_less_transitive(
                        encode_utf8(list[i]),
                        encode_utf8(last),
                        encode_utf8(item),
                    );
                }
            }
            assert forall|t: Seq<char>| #[trigger] more.contains(t) <==> list.contains(t) || t
                == item by {
                if list.contains(t) {
                    let k = choose|k: int| 0 <= k < list.len() && list[k] == t;
                    assert(more[k] == t);
                }
                if more.contains(t) && t != item {
                    let k = choose|k: int| 0 <= k < more.len() && more[k] == t;
                    assert(list[k] == t);
                }
                assert(more[list.len() as int] == item);
            }
            more
        } else {
            lemma_less_total(encode_utf8(last), encode_utf8(item));
            if encode_utf8(last) == encode_utf8(item) {
                lemma_encoding_injective(last, item);
            }
            let part = lemma_insert_exists(head, item);
            let more = part.push(last);
            assert forall|i: int, j: int| 0 <= i < j < more.len() implies text_less(
                more[i],
                more[j],
            ) by {
                if j == part.len() {
                    assert(part.contains(part[i]));
                    if part[i] != item {
                        let k = choose|k: int| 0 <= k < head.len() && head[k] == part[i];
                        assert(text_less(list[k], list[list.len() - 1]));
                    }
                }
            }
            assert forall|t: Seq<char>| #[trigger] more.contains(t) <==> list.contains(t) || t
                == item by {
                if part.contains(t) {
                    let k = choose|k: int| 0 <= k < part.len() && part[k] == t;
                    assert(more[k] == t);
                }
                if more.contains(t) && t != last {
                    let k = choose|k: int| 0 <= k < more.len() && more[k] == t;
                    assert(part[k] == t);
                    assert(part.contains(t));
                }
                assert(more[part.len() as int] == last);
            }
            more
        }
    }
}

proof fn lemma_listing_exists(root: Seq<char>, mounts: Seq<Seq<u8>>) -> (list: Seq<Seq<char>>)
    ensures
        is_child_listing(root, mounts, list),
    decreases mounts.len(),
{
    if mounts.len() == 0 {
        seq![]
    } else {
        let head = mounts.drop_last();
        let entry = mounts.last();
        let before = lemma_listing_exists(root, head);
        assert(mounts =~= head.push(entry));
        assert forall|b: Seq<u8>| #[trigger] mounts.contains(b) <==> head.contains(b) || b
            == entry by {
            if head.contains(b) {
                let k = choose|k: int| 0 <= k < head.len() && head[k] == b;
                assert(mounts[k] == b);
            }
            if mounts.contains(b) && b != entry {
                let k = choose|k: int| 0 <= k < mounts.len() && mounts[k] == b;
                assert(head[k] == b);
            }
            assert(mounts[mounts.len() - 1] == entry);
        }
        let list = if valid_utf8(entry) && is_below(entry, encode_utf8(root)) {
            lemma_insert_exists(before, decode_utf8(entry))
        } else {
            before
        };
        assert forall|t: Seq<char>|
            list.contains(t) <==> #[trigger] is_child_mount(root, mounts, t) by {
            assert(before.contains(t) <==> is_child_mount(root, head, t));
            encode_utf8_valid_utf8(t);
            encode_utf8_decode_utf8(t);
            if valid_utf8(entry) {
                decode_utf8_encode_utf8(entry);
            }
        }
        list
    }
}

/// Whatever the mount points, there is a listing of the child mounts.
pub proof fn child_listing_exists(root: Seq<char>, mounts: Seq<Seq<u8>>)
    ensures
        is_child_listing(root, mounts, child_listing(root, mounts)),
{
    let list = lemma_listing_exists(root, mounts);
}

/// Whether one string comes before another.
fn comes_before(a: &str, b: &str) -> (less: bool)
    ensures
        less == text_less(a@, b@),
{
    let x: &[u8] = a.as_bytes();
    let y: &[u8] = b.as_bytes();
    let mut i: usize = 0;
    assert(x@.skip(0) =~= x@);
    assert(y@.skip(0) =~= y@);
    while i < x.len() && i < y.len()
        invariant
            x@ == encode_utf8(a@),
            y@ == encode_utf8(b@),
            i <= x@.len(),
            i <= y@.len(),
            bytes_less(x@, y@) == bytes_less(x@.skip(i as int), y@.skip(i as int)),
        decreases x@.len() - i,
    {
        if x[i] != y[i] {
            return x[i] < y[i];
        }
        assert(x@.skip(i as int).drop_first() =~= x@.skip(i + 1));
        assert(y@.skip(i as int).drop_first() =~= y@.skip(i + 1));
        i = i + 1;
    }
    i < y.len()
}

/// Puts a string into an ascending list, unless it is there already.
fn insert_ascending(list: &mut Vec<String>, item: String)
    requires
        ascending(text::texts(old(list)@)),
    ensures
        ascending(text::texts(final(list)@)),
        forall|t: Seq<char>| #[trigger]
            text::texts(final(list)@).contains(t) <==> text::texts(old(list)@).contains(t) || t
                == item@,
{
    let ghost before = text::texts(list@);
    let mut at: usize = 0;
    while at < list.len() && comes_before(list[at].as_str(), item.as_str())
        invariant
            at <= list@.len(),
            before == text::texts(list@),
            forall|k: int| 0 <= k < at ==> text_less(#[trigger] before[k], item@),
        decreases list@.len() - at,
    {
        at = at + 1;
    }
    if at < list.len() && list[at] == item {
        assert(before[at as int] == item@);
        assert(before.contains(item@));
        return ;
    }
    let ghost new = item@;
    list.insert(at, item);
    proof {
        let after = text::texts(list@);
        assert(after =~= before.insert(at as int, new));
        if at < before.len() {
            lemma_less_total(encode_utf8(before[at as int]), encode_utf8(new));
            if encode_utf8(before[at as int]) == encode_utf8(new) {
                lemma_encoding_injective(before[at as int], new);
            }
            assert(text_less(new, before[at as int]));
        }
        assert forall|i: int, j: int| 0 <= i < j < after.len() implies text_less(
            after[i],
            after[j],
        ) by {
            if i == at {
                if j > at + 1 {
                    assert(text_less(before[at as int], before[j - 1]));
                    lemma_less_transitive(
                        encode_utf8(new),
                        encode_utf8(before[at as int]),
                        encode_utf8(before[j - 1]),
                    );
                }
            } else if j == at {
                assert(text_less(before[i], new));
            } else if i < at && j > at {
                assert(text_less(before[i], before[j - 1]));
            } else if i > at {
                assert(text_less(before[i - 1], before[j - 1]));
            } else {
                assert(text_less(before[i], before[j]));
            }
        }
        assert forall|t: Seq<char>| #[trigger] after.contains(t) <==> before.contains(t) || t
            == new by {
            if after.contains(t) {
                let k = choose|k: int| 0 <= k < after.len() && after[k] == t;
                if k < at {
                    assert(before[k] == t);
                } else if k > at {
                    assert(before[k - 1] == t);
                }
            }
            if before.contains(t) {
                let k = choose|k: int| 0 <= k < before.len() && before[k] == t;
                if k < at {
                    assert(after[k] == t);
                } else {
                    assert(after[k + 1] == t);
                }
            }
            if t == new {
                assert(after[at as int] == t);
            }
        }
    }
}

fn copy_bytes(bytes: &Vec<u8>) -> (copy: Vec<u8>)
    ensures
        copy@ == bytes@,
{
    let mut copy: Vec<u8> = Vec::new();
    copy.extend_from_slice(bytes.as_slice());
    assert(copy@ =~= bytes@);
    copy
}

/// The mount points below `root`, out of all the mount points of the host: sorted, each once,
/// without those that are not valid UTF-8.
pub fn collect_child_mount_points(root: &str, mounts: &Vec<Vec<u8>>) -> (list: Vec<String>)
    ensures
        is_child_listing(root@, byte_lists(mounts@), text::texts(list@)),
{
    let mut list: Vec<String> = Vec::new();
    let ghost all = byte_lists(mounts@);
    assert(text::texts(list@) =~= seq![]);
    for i in 0..mounts.len()
        invariant
            all == byte_lists(mounts@),
            is_child_listing(root@, all.take(i as int), text::texts(list@)),
    {
        let ghost before = all.take(i as int);
        let ghost after = all.take(i + 1);
        let ghost entry = all[i as int];
        let ghost listed = text::texts(list@);
        proof {
            assert(entry == mounts@[i as int]@);
            assert(after =~= before.push(entry));
            assert forall|b: Seq<u8>| #[trigger] after.contains(b) <==> before.contains(b) || b
                == entry by {
                if after.contains(b) {
                    let k = choose|k: int| 0 <= k < after.len() && after[k] == b;
                    if k < i {
                        assert(before[k] == b);
                    }
                }
                if before.contains(b) {
                    let k = choose|k: int| 0 <= k < before.len() && before[k] == b;
                    assert(after[k] == b);
                }
                assert(after[i as int] == entry);
            }
        }
        if lies_below(mounts[i].as_slice(), root.as_bytes()) {
            match utf8_string(copy_bytes(&mounts[i])) {
                Some(point) => {
                    let ghost p = point@;
                    insert_ascending(&mut list, point);
                    proof {
                        assert forall|t: Seq<char>|
                            text::texts(list@).contains(t) <==> #[trigger] is_child_mount(
                                root@,
                                after,
                                t,
                            ) by {
                            assert(listed.contains(t) <==> is_child_mount(root@, before, t));
                            if encode_utf8(t) == entry {
                                lemma_encoding_injective(t, p);
                            }
                        }
                    }
                },
                None => {
                    proof {
                        assert forall|t: Seq<char>|
                            listed.contains(t) <==> #[trigger] is_child_mount(root@, after, t) by {
                            assert(listed.contains(t) <==> is_child_mount(root@, before, t));
                            encode_utf8_valid_utf8(t);
                        }
                    }
                },
            }
        } else {
            proof {
                assert forall|t: Seq<char>|
                    listed.contains(t) <==> #[trigger] is_child_mount(root@, after, t) by {
                    assert(listed.contains(t) <==> is_child_mount(root@, before, t));
                }
            }
        }
    }
    assert(all.take(all.len() as int) =~= all);
    list
}

} // verus!

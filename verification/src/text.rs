//! Text of mount options: escaping, joining, and reading back what was joined.

use vstd::prelude::*;

verus! {

/// `String::push` appends the given character to the end of the string.
pub assume_specification[ String::push ](s: &mut String, c: char)
    ensures
        final(s)@ == old(s)@.push(c),
;

/// The texts of a list of strings.
pub open spec fn texts(list: Seq<String>) -> Seq<Seq<char>> {
    list.map_values(|s: String| s@)
}

/// The text of a string that may be absent.
pub open spec fn opt_text(s: Option<String>) -> Option<Seq<char>> {
    match s {
        Some(t) => Some(t@),
        None => None,
    }
}

/// The characters that mean something to the parser of overlay mount options.
pub open spec fn is_separator(c: char) -> bool {
    c == '\\' || c == ',' || c == ':'
}

/// One character of an option value as it is written into mount data.
pub open spec fn escaped_char(c: char) -> Seq<char> {
    if is_separator(c) {
        seq!['\\', c]
    } else {
        seq![c]
    }
}

/// An option value as it is written into mount data: each separator with a backslash before it.
pub open spec fn escaped(value: Seq<char>) -> Seq<char>
    decreases value.len(),
{
    if value.len() == 0 {
        seq![]
    } else {
        escaped(value.drop_last()) + escaped_char(value.last())
    }
}

/// The values of a list, each escaped.
pub open spec fn escaped_all(values: Seq<Seq<char>>) -> Seq<Seq<char>> {
    values.map_values(|v: Seq<char>| escaped(v))
}

/// The parts in order, with `sep` between neighbours.
pub open spec fn joined(parts: Seq<Seq<char>>, sep: char) -> Seq<char>
    decreases parts.len(),
{
    if parts.len() == 0 {
        seq![]
    } else if parts.len() == 1 {
        parts[0]
    } else {
        joined(parts.drop_last(), sep).push(sep) + parts.last()
    }
}

/// Whether two texts are the same.
pub(crate) fn same_text(a: &str, b: &str) -> (same: bool)
    ensures
        same == (a@ == b@),
{
    a.to_owned() == b.to_owned()
}

/// Copies a string.
pub(crate) fn copy_text(s: &str) -> (copy: String)
    ensures
        copy@ == s@,
{
    s.to_owned()
}

/// Copies a string that may be absent.
pub(crate) fn copy_opt(s: &Option<String>) -> (copy: Option<String>)
    ensures
        opt_text(copy) == opt_text(*s),
{
    match s {
        Some(t) => Some(copy_text(t.as_str())),
        None => None,
    }
}

/// Borrows a string that may be absent.
pub(crate) fn borrow_opt(s: &Option<String>) -> (borrowed: Option<&str>)
    ensures
        match borrowed {
            Some(t) => *s matches Some(u) && t@ == u@,
            None => *s is None,
        },
{
    match s {
        Some(t) => Some(t.as_str()),
        None => None,
    }
}

/// Copies a list of strings.
pub(crate) fn copy_list(list: &[String]) -> (copy: Vec<String>)
    ensures
        texts(copy@) == texts(list@),
{
    let mut copy: Vec<String> = Vec::new();
    for i in 0..list.len()
        invariant
            texts(copy@) == texts(list@).take(i as int),
    {
        copy.push(copy_text(list[i].as_str()));
        proof {
            assert(texts(copy@) =~= texts(list@).take(i as int).push(list@[i as int]@));
            assert(texts(list@).take(i + 1) =~= texts(list@).take(i as int).push(list@[i as int]@));
        }
    }
    assert(texts(list@).take(list@.len() as int) =~= texts(list@));
    copy
}

/// Two texts, one after the other.
pub(crate) fn concat(a: &str, b: &str) -> (both: String)
    ensures
        both@ == a@ + b@,
{
    let mut both: String = copy_text(a);
    both.append(b);
    both
}

/// Whether a NUL character occurs in the text.
pub(crate) fn has_nul(s: &str) -> (found: bool)
    ensures
        found == s@.contains('\0'),
{
    for c in it: s.chars()
        invariant
            it.seq() == s@,
            forall|k: int| 0 <= k < it.index() ==> s@[k] != '\0',
    {
        if c == '\0' {
            assert(s@[it.index() as int] == '\0');
            return true;
        }
    }
    false
}

/// Escapes `\`, `,` and `:` inside a single lowerdir path, for the traditional mount fallback only.
pub fn escape_mount_option_value(value: &str) -> (result: String)
    ensures
        result@ == escaped(value@),
{
    let mut result: String = String::new();
    for ch in it: value.chars()
        invariant
            it.seq() == value@,
            result@ == escaped(value@.take(it.index() as int)),
    {
        let ghost i = it.index() as int;
        if matches!(ch, '\\' | ',' | ':') {
            result.push('\\');
        }
        result.push(ch);
        proof {
            assert(value@.take(i + 1).drop_last() =~= value@.take(i));
            assert(result@ =~= escaped(value@.take(i)) + escaped_char(ch));
        }
    }
    assert(value@.take(value@.len() as int) =~= value@);
    result
}

/// Joins the strings of a list with `:`.
pub(crate) fn join_colon(parts: &[String]) -> (result: String)
    ensures
        result@ == joined(texts(parts@), ':'),
{
    let mut result: String = String::new();
    for i in 0..parts.len()
        invariant
            result@ == joined(texts(parts@).take(i as int), ':'),
    {
        let ghost before = texts(parts@).take(i as int);
        if i > 0 {
            result.push(':');
        }
        result.append(parts[i].as_str());
        proof {
            assert(texts(parts@).take(i + 1).drop_last() =~= before);
            if i == 0 {
                assert(result@ =~= parts@[0]@);
            }
        }
    }
    assert(texts(parts@).take(parts@.len() as int) =~= texts(parts@));
    result
}

/// Escapes every string of a list and joins the results with `:`.
pub(crate) fn join_escaped(parts: &[String]) -> (result: String)
    ensures
        result@ == joined(escaped_all(texts(parts@)), ':'),
{
    let mut safe: Vec<String> = Vec::new();
    for i in 0..parts.len()
        invariant
            texts(safe@) == escaped_all(texts(parts@)).take(i as int),
    {
        safe.push(escape_mount_option_value(parts[i].as_str()));
        proof {
            let all = escaped_all(texts(parts@));
            assert(texts(safe@) =~= all.take(i as int).push(escaped(parts@[i as int]@)));
            assert(all.take(i + 1) =~= all.take(i as int).push(escaped(parts@[i as int]@)));
        }
    }
    assert(escaped_all(texts(parts@)).take(parts@.len() as int) =~= escaped_all(texts(parts@)));
    join_colon(safe.as_slice())
}

/// What a reader of mount options has seen so far: the fields, the last of them still open, and
/// whether the next character is taken literally.
pub struct Scan {
    pub fields: Seq<Seq<char>>,
    pub quoted: bool,
}

impl Scan {
    /// The same fields with `more` added to the open one.
    pub open spec fn extended(self, more: Seq<char>) -> Scan {
        Scan {
            fields: self.fields.drop_last().push(self.fields.last() + more),
            quoted: false,
        }
    }
}

/// Reads option text up to its end. Fields end at each `sep` that no backslash stands before.
/// With `keep` the backslashes stay in the fields; without it they are taken out.
pub open spec fn scan(text: Seq<char>, sep: char, keep: bool) -> Scan
    decreases text.len(),
{
    if text.len() == 0 {
        Scan { fields: seq![seq![]], quoted: false }
    } else {
        let before = scan(text.drop_last(), sep, keep);
        let c = text.last();
        if before.quoted {
            before.extended(seq![c])
        } else if c == '\\' {
            Scan {
                fields: before.extended(
                    if keep {
                        seq![c]
                    } else {
                        seq![]
                    },
                ).fields,
                quoted: true,
            }
        } else if c == sep {
            Scan { fields: before.fields.push(seq![]), quoted: false }
        } else {
            before.extended(seq![c])
        }
    }
}

/// The fields of option text between separators, with the backslashes still in them.
pub open spec fn raw_fields(text: Seq<char>, sep: char) -> Seq<Seq<char>> {
    scan(text, sep, true).fields
}

/// The values that option text holds between separators, with the backslashes taken out.
pub open spec fn values(text: Seq<char>, sep: char) -> Seq<Seq<char>> {
    scan(text, sep, false).fields
}

proof fn lemma_scan_open(text: Seq<char>, sep: char, keep: bool)
    ensures
        scan(text, sep, keep).fields.len() > 0,
    decreases text.len(),
{
    if text.len() > 0 {
        lemma_scan_open(text.drop_last(), sep, keep);
    }
}

proof fn lemma_scan_plain(text: Seq<char>, c: char, sep: char, keep: bool)
    requires
        !scan(text, sep, keep).quoted,
        c != sep,
        c != '\\',
    ensures
        scan(text.push(c), sep, keep) == scan(text, sep, keep).extended(seq![c]),
{
    assert(text.push(c).drop_last() =~= text);
}

/// Reading an escaped value adds it to the open field, escaped or plain.
pub(crate) proof fn lemma_scan_escaped(text: Seq<char>, value: Seq<char>, sep: char, keep: bool)
    requires
        !scan(text, sep, keep).quoted,
        is_separator(sep),
        sep != '\\',
    ensures
        scan(text + escaped(value), sep, keep) == scan(text, sep, keep).extended(
            if keep {
                escaped(value)
            } else {
                value
            },
        ),
    decreases value.len(),
{
    let start = scan(text, sep, keep);
    lemma_scan_open(text, sep, keep);
    if value.len() == 0 {
        assert(text + escaped(value) =~= text);
        assert(start.extended(seq![]).fields =~= start.fields);
    } else {
        let head = value.drop_last();
        let c = value.last();
        lemma_scan_escaped(text, head, sep, keep);
        let mid = text + escaped(head);
        let done = if keep {
            escaped(head)
        } else {
            head
        };
        assert(scan(mid, sep, keep) == start.extended(done));
        if is_separator(c) {
            assert(text + escaped(value) =~= mid.push('\\').push(c));
            assert(mid.push('\\').drop_last() =~= mid);
            assert(mid.push('\\').push(c).drop_last() =~= mid.push('\\'));
            let q = scan(mid.push('\\'), sep, keep);
            assert(q.quoted);
            if keep {
                assert(start.fields.last() + done + seq!['\\'] + seq![c] =~= start.fields.last()
                    + escaped(value));
            } else {
                assert(start.fields.last() + done + Seq::<char>::empty() + seq![c]
                    =~= start.fields.last() + value);
            }
            assert(scan(text + escaped(value), sep, keep).fields =~= start.extended(
                if keep {
                    escaped(value)
                } else {
                    value
                },
            ).fields);
        } else {
            assert(text + escaped(value) =~= mid.push(c));
            lemma_scan_plain(mid, c, sep, keep);
            if keep {
                assert(start.fields.last() + done + seq![c] =~= start.fields.last() + escaped(
                    value,
                ));
            } else {
                assert(start.fields.last() + done + seq![c] =~= start.fields.last() + value);
            }
            assert(scan(text + escaped(value), sep, keep).fields =~= start.extended(
                if keep {
                    escaped(value)
                } else {
                    value
                },
            ).fields);
        }
    }
}

/// Escaping loses nothing: whoever reads the escaped value back gets the value, as one field,
/// whatever separators stand in it.
pub proof fn escaped_value_reads_back(value: Seq<char>, sep: char)
    requires
        sep == ',' || sep == ':',
    ensures
        values(escaped(value), sep) == seq![value],
{
    let none: Seq<char> = seq![];
    lemma_scan_escaped(none, value, sep, false);
    assert(none + escaped(value) =~= escaped(value));
    assert(none + value =~= value);
    assert(values(escaped(value), sep) =~= seq![value]);
}

/// Two different values never have the same escaped form.
pub proof fn escaping_is_injective(a: Seq<char>, b: Seq<char>)
    requires
        escaped(a) == escaped(b),
    ensures
        a == b,
{
    escaped_value_reads_back(a, ':');
    escaped_value_reads_back(b, ':');
    assert(seq![a][0] == seq![b][0]);
}

/// A list of layers that was escaped and joined with `:` reads back as the same layers in the
/// same order, whatever separators stand in their paths.
pub proof fn joined_layers_read_back(layers: Seq<Seq<char>>)
    requires
        layers.len() > 0,
    ensures
        values(joined(escaped_all(layers), ':'), ':') == layers,
        !scan(joined(escaped_all(layers), ':'), ':', false).quoted,
    decreases layers.len(),
{
    let all = escaped_all(layers);
    let none: Seq<char> = seq![];
    if layers.len() == 1 {
        escaped_value_reads_back(layers[0], ':');
        lemma_scan_escaped(none, layers[0], ':', false);
        assert(none + escaped(layers[0]) =~= escaped(layers[0]));
        assert(seq![layers[0]] =~= layers);
    } else {
        let head = layers.drop_last();
        joined_layers_read_back(head);
        assert(all.drop_last() =~= escaped_all(head));
        let first = joined(escaped_all(head), ':');
        let open = first.push(':');
        assert(open.drop_last() =~= first);
        assert(scan(open, ':', false).fields =~= head.push(none));
        lemma_scan_escaped(open, layers.last(), ':', false);
        assert(none + layers.last() =~= layers.last());
        assert(scan(open + escaped(layers.last()), ':', false).fields =~= layers);
    }
}

/// Joined layers are one field of the option text around them: no comma of theirs ends it.
pub(crate) proof fn lemma_scan_joined(text: Seq<char>, layers: Seq<Seq<char>>)
    requires
        !scan(text, ',', true).quoted,
    ensures
        scan(text + joined(escaped_all(layers), ':'), ',', true) == scan(
            text,
            ',',
            true,
        ).extended(joined(escaped_all(layers), ':')),
    decreases layers.len(),
{
    let all = escaped_all(layers);
    let start = scan(text, ',', true);
    lemma_scan_open(text, ',', true);
    if layers.len() == 0 {
        assert(text + joined(all, ':') =~= text);
        assert(start.extended(seq![]).fields =~= start.fields);
    } else if layers.len() == 1 {
        lemma_scan_escaped(text, layers[0], ',', true);
    } else {
        let head = layers.drop_last();
        lemma_scan_joined(text, head);
        assert(all.drop_last() =~= escaped_all(head));
        let first = joined(escaped_all(head), ':');
        lemma_scan_plain(text + first, ':', ',', true);
        lemma_scan_escaped((text + first).push(':'), layers.last(), ',', true);
        assert((text + first).push(':') + escaped(layers.last()) =~= text + joined(all, ':'));
        assert(start.fields.last() + first + seq![':'] + escaped(layers.last())
            =~= start.fields.last() + joined(all, ':'));
        assert(scan(text + joined(all, ':'), ',', true).fields =~= start.extended(
            joined(all, ':'),
        ).fields);
    }
}

/// Escaping goes character by character: a text is escaped by escaping its parts, each of `\\`, `,`
/// and `:` alone gets a backslash before it, and every other character stays as it is.
pub proof fn escaping_goes_by_characters(a: Seq<char>, b: Seq<char>, c: char)
    ensures
        escaped(a + b) == escaped(a) + escaped(b),
        c == '\\' || c == ',' || c == ':' ==> escaped(seq![c]) == seq!['\\', c],
        c != '\\' && c != ',' && c != ':' ==> escaped(seq![c]) == seq![c],
    decreases b.len(),
{
    let one = seq![c];
    reveal_with_fuel(escaped, 2);
    assert(one.drop_last() =~= seq![]);
    assert(escaped(one) =~= escaped_char(c));
    if b.len() == 0 {
        assert(a + b =~= a);
        assert(escaped(a) + escaped(b) =~= escaped(a));
    } else {
        escaping_goes_by_characters(a, b.drop_last(), c);
        assert((a + b).drop_last() =~= a + b.drop_last());
        assert(escaped(a + b) =~= escaped(a) + escaped(b));
    }
}

/// The escaped form of a text holds a NUL exactly where the text does.
pub(crate) proof fn lemma_escaped_nul(value: Seq<char>)
    ensures
        escaped(value).contains('\0') <==> value.contains('\0'),
    decreases value.len(),
{
    if value.len() > 0 {
        let head = value.drop_last();
        lemma_escaped_nul(head);
        assert(value =~= head + seq![value.last()]);
        lemma_concat_contains(head, seq![value.last()], '\0');
        lemma_concat_contains(escaped(head), escaped_char(value.last()), '\0');
        assert(seq![value.last()][0] == value.last());
        if value.last() == '\0' {
            assert(escaped_char(value.last())[0] == '\0');
        }
    }
}

/// What occurs in one of two texts occurs in both together, and nothing else does.
pub(crate) proof fn lemma_concat_contains<T>(a: Seq<T>, b: Seq<T>, x: T)
    ensures
        (a + b).contains(x) <==> a.contains(x) || b.contains(x),
{
    if a.contains(x) {
        let i = choose|i: int| 0 <= i < a.len() && a[i] == x;
        assert((a + b)[i] == x);
    }
    if b.contains(x) {
        let i = choose|i: int| 0 <= i < b.len() && b[i] == x;
        assert((a + b)[a.len() + i] == x);
    }
    if (a + b).contains(x) {
        let i = choose|i: int| 0 <= i < (a + b).len() && (a + b)[i] == x;
        if i < a.len() {
            assert(a[i] == x);
        } else {
            assert(b[i - a.len()] == x);
        }
    }
}

/// Joined parts hold a NUL exactly where one of the parts does.
pub(crate) proof fn lemma_joined_nul(parts: Seq<Seq<char>>)
    ensures
        joined(parts, ':').contains('\0') <==> exists|i: int|
            0 <= i < parts.len() && (#[trigger] parts[i]).contains('\0'),
    decreases parts.len(),
{
    if parts.len() == 1 {
        assert(parts[0] == joined(parts, ':'));
    } else if parts.len() > 1 {
        let head = parts.drop_last();
        lemma_joined_nul(head);
        let first = joined(head, ':');
        lemma_concat_contains(first, seq![':'], '\0');
        assert(first.push(':') =~= first + seq![':']);
        assert(!seq![':'].contains('\0'));
        lemma_concat_contains(first.push(':'), parts.last(), '\0');
        if first.contains('\0') {
            let i = choose|i: int| 0 <= i < head.len() && (#[trigger] head[i]).contains('\0');
            assert(parts[i] == head[i]);
        }
        if exists|i: int| 0 <= i < parts.len() && (#[trigger] parts[i]).contains('\0') {
            let i = choose|i: int| 0 <= i < parts.len() && (#[trigger] parts[i]).contains('\0');
            if i < head.len() {
                assert(head[i] == parts[i]);
            }
        }
    }
}

/// Joining two lists puts one separator between what each of them joins to; a single part stays as
/// it is, and nothing joins to nothing.
pub proof fn joining_separates_neighbours(
    parts: Seq<Seq<char>>,
    more: Seq<Seq<char>>,
    one: Seq<char>,
    sep: char,
)
    requires
        parts.len() > 0,
        more.len() > 0,
    ensures
        joined(parts + more, sep) == joined(parts, sep) + seq![sep] + joined(more, sep),
        joined(seq![one], sep) == one,
        joined(seq![], sep) == Seq::<char>::empty(),
    decreases more.len(),
{
    let all = parts + more;
    assert(all.drop_last() =~= parts + more.drop_last());
    if more.len() == 1 {
        assert(all.drop_last() =~= parts);
    } else {
        joining_separates_neighbours(parts, more.drop_last(), one, sep);
    }
    assert(joined(all, sep) =~= joined(parts, sep) + seq![sep] + joined(more, sep));
}

/// What stands between the separators of a text, where nothing quotes them.
pub open spec fn pieces(text: Seq<char>, sep: char) -> Seq<Seq<char>>
    decreases text.len(),
{
    if text.len() == 0 {
        seq![seq![]]
    } else {
        let before = pieces(text.drop_last(), sep);
        if text.last() == sep {
            before.push(seq![])
        } else {
            before.drop_last().push(before.last().push(text.last()))
        }
    }
}

proof fn lemma_pieces_of_plain(text: Seq<char>, plain: Seq<char>, sep: char)
    requires
        !plain.contains(sep),
    ensures
        pieces(text, sep).len() > 0,
        pieces(text + plain, sep) == pieces(text, sep).drop_last().push(
            pieces(text, sep).last() + plain,
        ),
    decreases text.len(), plain.len(),
{
    if text.len() > 0 {
        lemma_pieces_of_plain(text.drop_last(), seq![], sep);
    }
    let before = pieces(text, sep);
    if plain.len() == 0 {
        assert(text + plain =~= text);
        assert(before.last() + plain =~= before.last());
        assert(before.drop_last().push(before.last()) =~= before);
    } else {
        let head = plain.drop_last();
        assert(!head.contains(sep)) by {
            if head.contains(sep) {
                let i = choose|i: int| 0 <= i < head.len() && head[i] == sep;
                assert(plain[i] == sep);
            }
        }
        assert(plain[plain.len() - 1] != sep);
        lemma_pieces_of_plain(text, head, sep);
        assert((text + plain).drop_last() =~= text + head);
        assert((before.last() + head).push(plain.last()) =~= before.last() + plain);
        assert(pieces(text + plain, sep) =~= before.drop_last().push(before.last() + plain));
    }
}

/// Parts that hold no separator can be told apart after they were joined: cutting the text at its
/// separators gives back the same parts in the same order.
pub proof fn joined_parts_split_back(parts: Seq<Seq<char>>, sep: char)
    requires
        parts.len() > 0,
        forall|i: int| 0 <= i < parts.len() ==> !(#[trigger] parts[i]).contains(sep),
    ensures
        pieces(joined(parts, sep), sep) == parts,
    decreases parts.len(),
{
    let none: Seq<char> = seq![];
    if parts.len() == 1 {
        lemma_pieces_of_plain(none, parts[0], sep);
        assert(none + parts[0] =~= parts[0]);
        assert(pieces(joined(parts, sep), sep) =~= parts);
    } else {
        let head = parts.drop_last();
        assert forall|i: int| 0 <= i < head.len() implies !(#[trigger] head[i]).contains(sep) by {
            assert(head[i] == parts[i]);
        }
        joined_parts_split_back(head, sep);
        let open = joined(head, sep).push(sep);
        assert(open.drop_last() =~= joined(head, sep));
        assert(pieces(open, sep) =~= head.push(none));
        lemma_pieces_of_plain(open, parts.last(), sep);
        assert(none + parts.last() =~= parts.last());
        assert(pieces(joined(parts, sep), sep) =~= parts);
    }
}

/// What the contracts see of a list of strings is the text of each of them, and of a string that
/// may be absent the text where there is one.
pub proof fn texts_are_those_of_the_strings(list: Seq<String>, s: Option<String>)
    ensures
        texts(list).len() == list.len(),
        forall|i: int| 0 <= i < list.len() ==> #[trigger] texts(list)[i] == list[i]@,
        s is None <==> opt_text(s) is None,
        s matches Some(t) ==> opt_text(s) == Some(t@),
{
}

} // verus!

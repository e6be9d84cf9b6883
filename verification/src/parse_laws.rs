//! Properties of the front matter reader over whole texts.

use vstd::prelude::*;
use crate::frontmatter::{
    is_blank, is_comment, is_item_line, item_text, scan_items, spec_parse_scalar, spec_unquote,
    spec_yaml_map, unquote_panics, yaml_from, Entry, MetaValueView,
};
use crate::keyed::{distinct_keys, entries_map, insert_entry, lemma_insert_entry};
use crate::text::{find, is_ws, lemma_find_from_bounds, lines, trim, trim_end, trim_start};

verus! {

/// The line holds a field: it is neither blank nor a comment, and has a `:`.
pub open spec fn field_line(l: Seq<char>) -> bool {
    !is_blank(l) && !is_comment(l) && find(l, ':') is Some
}

/// The key of a field line: the text before its first `:`, trimmed.
pub open spec fn field_key(l: Seq<char>) -> Seq<char> {
    trim(l.take(find(l, ':')->0))
}

/// The value of a field line: the text after its first `:`, trimmed.
pub open spec fn field_value(l: Seq<char>) -> Seq<char> {
    trim(l.skip(find(l, ':')->0 + 1))
}

/// Line `i` opens a list: the next line is a `- ` item.
pub open spec fn opens_list(ls: Seq<Seq<char>>, i: int) -> bool {
    i + 1 < ls.len() && is_item_line(ls[i + 1])
}

/// No item of a `- ` line, and no value of a field line that does not open
/// a list, is a lone quote character.
pub open spec fn readable(ls: Seq<Seq<char>>) -> bool {
    forall|i: int|
        0 <= i < ls.len() ==> (is_item_line(#[trigger] ls[i]) ==> !unquote_panics(item_text(ls[i])))
            && (field_line(ls[i]) && !opens_list(ls, i) ==> !unquote_panics(field_value(ls[i])))
}

/// The items of the lines `ls[a..b]`.
pub open spec fn items_of(ls: Seq<Seq<char>>, a: int, b: int) -> Seq<Seq<char>> {
    ls.subrange(a, b).map_values(|l: Seq<char>| spec_unquote(item_text(l)))
}

proof fn lemma_scan(ls: Seq<Seq<char>>, j0: int)
    requires
        0 <= j0,
        forall|i: int| j0 <= i < ls.len() && is_item_line(#[trigger] ls[i]) ==> !unquote_panics(item_text(ls[i])),
    ensures
        scan_items(ls, j0) matches Some(r) && j0 <= r.0 && (j0 <= ls.len() ==> r.0 <= ls.len()) && (
        r.1.len() > 0 <==> j0 < ls.len() && is_item_line(ls[j0])) && (r.1.len() > 0 ==> r.0 > j0),
    decreases ls.len() - j0,
{
    if j0 < ls.len() && is_item_line(ls[j0]) {
        lemma_scan(ls, j0 + 1);
    }
}

/// A front matter whose items and unlisted values are no lone quote
/// characters is read without failing.
pub proof fn law_yaml_readable(yaml: Seq<char>)
    requires
        readable(lines(yaml)),
    ensures
        spec_yaml_map(yaml) is Some,
{
    lemma_yaml_from_some(lines(yaml), 0, seq![]);
}

proof fn lemma_yaml_from_some(ls: Seq<Seq<char>>, i: int, acc: Seq<Entry>)
    requires
        0 <= i,
        readable(ls),
    ensures
        yaml_from(ls, i, acc) is Some,
    decreases ls.len() - i,
{
    if i < ls.len() {
        let line = ls[i];
        if is_blank(line) || is_comment(line) {
            lemma_yaml_from_some(ls, i + 1, acc);
        } else {
            match find(line, ':') {
                None => lemma_yaml_from_some(ls, i + 1, acc),
                Some(c) => {
                    lemma_scan(ls, i + 1);
                    let r = scan_items(ls, i + 1)->0;
                    let key = trim(line.take(c));
                    if r.1.len() > 0 {
                        lemma_yaml_from_some(ls, r.0, insert_entry(acc, key, MetaValueView::List(r.1)));
                    } else {
                        assert(field_line(line) && !opens_list(ls, i));
                        let raw = trim(line.skip(c + 1));
                        assert(!unquote_panics(raw));
                        let v = spec_parse_scalar(raw)->0;
                        lemma_yaml_from_some(
                            ls,
                            i + 1,
                            if key.len() > 0 {
                                insert_entry(acc, key, v)
                            } else {
                                acc
                            },
                        );
                    }
                },
            }
        }
    }
}

proof fn lemma_scan_run(ls: Seq<Seq<char>>, j0: int, j: int)
    requires
        0 <= j0 <= j <= ls.len(),
        forall|t: int| j0 <= t < j ==> is_item_line(#[trigger] ls[t]) && !unquote_panics(item_text(ls[t])),
        j < ls.len() ==> !is_item_line(ls[j]),
    ensures
        scan_items(ls, j0) == Some(
            (
                if j < ls.len() && is_blank(ls[j]) {
                    j + 1
                } else {
                    j
                },
                items_of(ls, j0, j),
            ),
        ),
    decreases j - j0,
{
    if j0 < j {
        lemma_scan_run(ls, j0 + 1, j);
        assert(items_of(ls, j0, j) =~= seq![spec_unquote(item_text(ls[j0]))] + items_of(ls, j0 + 1, j));
    } else {
        assert(items_of(ls, j0, j) =~= Seq::<Seq<char>>::empty());
    }
}

/// A field line followed by a run of `- ` item lines holds the list of
/// those items, whatever its own value: reading goes on after the run, and
/// after one blank line that ends it; the run's lines add no keys of their
/// own.
pub proof fn law_list_field(ls: Seq<Seq<char>>, i: int, j: int, acc: Seq<Entry>)
    requires
        0 <= i,
        i + 2 <= j <= ls.len(),
        field_line(ls[i]),
        forall|t: int| i + 1 <= t < j ==> is_item_line(#[trigger] ls[t]) && !unquote_panics(item_text(ls[t])),
        j < ls.len() ==> !is_item_line(ls[j]),
    ensures
        yaml_from(ls, i, acc) == yaml_from(
            ls,
            if j < ls.len() && is_blank(ls[j]) {
                j + 1
            } else {
                j
            },
            insert_entry(acc, field_key(ls[i]), MetaValueView::List(items_of(ls, i + 1, j))),
        ),
{
    lemma_scan_run(ls, i + 1, j);
    assert(items_of(ls, i + 1, j).len() > 0);
}

/// The map of the fields of the lines `ls[i..]`, added to `m`, where no
/// line is a list item: each field line with a key puts the value it reads
/// as under that key, a later line over an earlier one.
pub open spec fn fields_map(ls: Seq<Seq<char>>, i: int, m: Map<Seq<char>, MetaValueView>) -> Map<
    Seq<char>,
    MetaValueView,
>
    decreases ls.len() - i,
{
    if i < 0 || i >= ls.len() {
        m
    } else if field_line(ls[i]) && field_key(ls[i]).len() > 0 {
        fields_map(ls, i + 1, m.insert(field_key(ls[i]), spec_parse_scalar(field_value(ls[i]))->0))
    } else {
        fields_map(ls, i + 1, m)
    }
}

proof fn lemma_fields(ls: Seq<Seq<char>>, i: int, acc: Seq<Entry>)
    requires
        0 <= i,
        distinct_keys(acc),
        readable(ls),
        forall|t: int| 0 <= t < ls.len() ==> !is_item_line(#[trigger] ls[t]),
    ensures
        yaml_from(ls, i, acc) matches Some(s) && distinct_keys(s) && entries_map(s) == fields_map(
            ls,
            i,
            entries_map(acc),
        ),
    decreases ls.len() - i,
{
    if i < ls.len() {
        let line = ls[i];
        if is_blank(line) || is_comment(line) {
            lemma_fields(ls, i + 1, acc);
        } else {
            match find(line, ':') {
                None => lemma_fields(ls, i + 1, acc),
                Some(c) => {
                    lemma_scan(ls, i + 1);
                    assert(!opens_list(ls, i));
                    let key = trim(line.take(c));
                    let raw = trim(line.skip(c + 1));
                    let v = spec_parse_scalar(raw)->0;
                    if key.len() > 0 {
                        lemma_insert_entry(acc, key, v);
                        lemma_fields(ls, i + 1, insert_entry(acc, key, v));
                    } else {
                        lemma_fields(ls, i + 1, acc);
                    }
                },
            }
        }
    }
}

/// A front matter without list items, whose values are no lone quote
/// characters, reads as the map of its fields: each field line with a key
/// puts the value it reads as under its trimmed key, a later line with the
/// same key over an earlier one; other lines add nothing.
pub proof fn law_scalar_fields(yaml: Seq<char>)
    requires
        readable(lines(yaml)),
        forall|t: int| 0 <= t < lines(yaml).len() ==> !is_item_line(#[trigger] lines(yaml)[t]),
    ensures
        spec_yaml_map(yaml) matches Some(s) && entries_map(s) == fields_map(
            lines(yaml),
            0,
            Map::empty(),
        ),
{
    lemma_fields(lines(yaml), 0, seq![]);
    assert(entries_map(Seq::<Entry>::empty()) =~= Map::<Seq<char>, MetaValueView>::empty());
}


/// `k` is the key of a field line of `ls`, and empty only where that line
/// opens a list.
pub open spec fn key_of_line(ls: Seq<Seq<char>>, k: Seq<char>) -> bool {
    exists|i: int|
        #![trigger ls[i]]
        0 <= i < ls.len() && field_line(ls[i]) && k == field_key(ls[i]) && (k.len() == 0
            ==> opens_list(ls, i))
}

/// Every entry of `s` has the key of a field line of `ls`, and an empty
/// key only where that line opens a list.
pub open spec fn keys_from_lines(ls: Seq<Seq<char>>, s: Seq<Entry>) -> bool {
    forall|e: int| 0 <= e < s.len() ==> key_of_line(ls, #[trigger] s[e].0)
}

proof fn lemma_insert_keys(acc: Seq<Entry>, k: Seq<char>, v: MetaValueView)
    ensures
        forall|e: int|
            0 <= e < insert_entry(acc, k, v).len() ==> #[trigger] insert_entry(acc, k, v)[e].0 == k
                || (e < acc.len() && insert_entry(acc, k, v)[e].0 == acc[e].0),
{
    crate::keyed::lemma_key_pos_from(acc, k, 0);
}

proof fn lemma_scan_first(ls: Seq<Seq<char>>, j0: int)
    ensures
        scan_items(ls, j0) matches Some(r) && r.1.len() > 0 ==> 0 <= j0 < ls.len() && is_item_line(
            ls[j0],
        ),
{
}

proof fn lemma_keys_kept(ls: Seq<Seq<char>>, i: int, acc: Seq<Entry>)
    requires
        0 <= i,
        keys_from_lines(ls, acc),
    ensures
        yaml_from(ls, i, acc) matches Some(s) ==> keys_from_lines(ls, s),
    decreases ls.len() - i,
{
    if i < ls.len() {
        let line = ls[i];
        if is_blank(line) || is_comment(line) {
            lemma_keys_kept(ls, i + 1, acc);
        } else {
            match find(line, ':') {
                None => lemma_keys_kept(ls, i + 1, acc),
                Some(c) => {
                    let key = trim(line.take(c));
                    assert(field_line(line) && key == field_key(line));
                    lemma_scan_first(ls, i + 1);
                    match scan_items(ls, i + 1) {
                        None => {},
                        Some(r) => {
                            if r.1.len() > 0 {
                                if i < r.0 <= ls.len() {
                                    let next = insert_entry(acc, key, MetaValueView::List(r.1));
                                    lemma_insert_keys(acc, key, MetaValueView::List(r.1));
                                    assert(key_of_line(ls, key)) by {
                                        let _ = ls[i];
                                    }
                                    assert forall|e: int| 0 <= e < next.len() implies key_of_line(
                                        ls,
                                        #[trigger] next[e].0,
                                    ) by {
                                        if next[e].0 != key {
                                            assert(acc[e].0 == next[e].0);
                                        }
                                    }
                                    lemma_keys_kept(ls, r.0, next);
                                }
                            } else {
                                match spec_parse_scalar(trim(line.skip(c + 1))) {
                                    None => {},
                                    Some(v) => {
                                        if key.len() > 0 {
                                            let next = insert_entry(acc, key, v);
                                            lemma_insert_keys(acc, key, v);
                                            assert(key_of_line(ls, key)) by {
                                                let _ = ls[i];
                                            }
                                            assert forall|e: int|
                                                0 <= e < next.len() implies key_of_line(
                                                ls,
                                                #[trigger] next[e].0,
                                            ) by {
                                                if next[e].0 != key {
                                                    assert(acc[e].0 == next[e].0);
                                                }
                                            }
                                            lemma_keys_kept(ls, i + 1, next);
                                        } else {
                                            lemma_keys_kept(ls, i + 1, acc);
                                        }
                                    },
                                }
                            }
                        },
                    }
                },
            }
        }
    }
}

/// The position where `trim_start` starts.
proof fn trim_start_pos(s: Seq<char>) -> (a: int)
    ensures
        0 <= a <= s.len(),
        trim_start(s) == s.skip(a),
        a < s.len() ==> !is_ws(s[a]),
    decreases s.len(),
{
    if s.len() > 0 && is_ws(s[0]) {
        let a = trim_start_pos(s.drop_first());
        assert(s.drop_first().skip(a) =~= s.skip(a + 1));
        a + 1
    } else {
        assert(s.skip(0) =~= s);
        0
    }
}

/// The position where `trim_end` ends.
proof fn trim_end_pos(s: Seq<char>) -> (b: int)
    ensures
        0 <= b <= s.len(),
        trim_end(s) == s.take(b),
        b > 0 ==> !is_ws(s[b - 1]),
    decreases s.len(),
{
    if s.len() > 0 && is_ws(s.last()) {
        let b = trim_end_pos(s.drop_last());
        assert(s.drop_last().take(b) =~= s.take(b));
        b
    } else {
        assert(s.take(s.len() as int) =~= s);
        s.len() as int
    }
}

/// A key has no whitespace at its ends and no `:`.
pub proof fn law_key_shape(l: Seq<char>)
    requires
        find(l, ':') is Some,
    ensures
        trim(field_key(l)) == field_key(l),
        forall|t: int| 0 <= t < field_key(l).len() ==> field_key(l)[t] != ':',
{
    let c = find(l, ':')->0;
    lemma_find_from_bounds(l, ':', 0);
    let x = l.take(c);
    let ts = trim_start(x);
    let a = trim_start_pos(x);
    let b = trim_end_pos(ts);
    let k = field_key(l);
    assert(k == ts.take(b));
    assert forall|t: int| 0 <= t < k.len() implies k[t] != ':' by {
        assert(k[t] == ts[t]);
        assert(ts[t] == x[a + t]);
        assert(x[a + t] == l[a + t]);
    }
    if k.len() > 0 {
        assert(!is_ws(k[0])) by {
            assert(k[0] == ts[0]);
        }
        assert(!is_ws(k.last()));
        assert(trim_start(k) == k);
        assert(trim_end(k) == k);
    } else {
        assert(trim_start(k) == k);
    }
}

/// Every key read from a front matter is the trimmed text before the first
/// `:` of one of its field lines, so it has no whitespace at its ends and
/// no `:`; a key is empty only where its line opens a list.
pub proof fn law_keys_of_yaml(yaml: Seq<char>, s: Seq<Entry>)
    requires
        spec_yaml_map(yaml) == Some(s),
    ensures
        keys_from_lines(lines(yaml), s),
        forall|e: int|
            0 <= e < s.len() ==> trim(#[trigger] s[e].0) == s[e].0 && forall|t: int|
                0 <= t < s[e].0.len() ==> s[e].0[t] != ':',
{
    let ls = lines(yaml);
    assert(keys_from_lines(ls, Seq::<Entry>::empty()));
    lemma_keys_kept(ls, 0, Seq::<Entry>::empty());
    assert(spec_yaml_map(yaml) == yaml_from(ls, 0, Seq::<Entry>::empty()));
    assert(keys_from_lines(ls, s));
    assert forall|e: int| 0 <= e < s.len() implies trim(#[trigger] s[e].0) == s[e].0 && forall|t: int|
        0 <= t < s[e].0.len() ==> s[e].0[t] != ':' by {
        assert(key_of_line(ls, s[e].0));
        let i = choose|i: int|
            #![trigger ls[i]]
            0 <= i < ls.len() && field_line(ls[i]) && s[e].0 == field_key(ls[i]) && (s[e].0.len()
                == 0 ==> opens_list(ls, i));
        law_key_shape(ls[i]);
    }
}

} // verus!

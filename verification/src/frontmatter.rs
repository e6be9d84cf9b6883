//! Front matter: the block of `key: value` lines between two `---` marks at
//! the top of a note, read into a map from keys to values.

use vstd::prelude::*;
use vstd::string::*;
use crate::keyed::{insert_entry, KeyedMap};
use crate::path::{file_name_chars, file_name_text};
use crate::text::{
    eq_str, find, find_char_from, find_word, find_word_chars, from_chars, lemma_find_from_bounds,
    lemma_find_word_from, lines, lines_of, parse_i64, parse_i64_chars, slice_chars, to_chars, trim,
    trim_chars, trim_range, trim_start, trim_start_chars, views,
};

verus! {

/// A value read from the front matter.
#[derive(Debug, PartialEq)]
pub enum MetaValue {
    /// An empty value, `null` or `~`.
    Null,
    /// `true`, `yes`, `false` or `no`.
    Bool(bool),
    /// A decimal integer in the range of `i64`.
    Int(i64),
    /// Any other scalar, without its quotes. Where its text reads as a
    /// finite floating-point number it stands for that number until
    /// `KeyedMap::set_value` marks it as a `Float`.
    Text(String),
    /// A number that is not an integer, by the text it is shown with.
    Float(String),
    /// The items of a `- item` list, without their quotes.
    List(Vec<String>),
}

/// What a `MetaValue` holds.
pub enum MetaValueView {
    Null,
    Bool(bool),
    Int(int),
    Text(Seq<char>),
    Float(Seq<char>),
    List(Seq<Seq<char>>),
}

/// The views of a sequence of strings.
pub open spec fn strings_view(v: Seq<String>) -> Seq<Seq<char>> {
    v.map_values(|s: String| s@)
}

impl View for MetaValue {
    type V = MetaValueView;

    open spec fn view(&self) -> MetaValueView {
        match self {
            MetaValue::Null => MetaValueView::Null,
            MetaValue::Bool(b) => MetaValueView::Bool(*b),
            MetaValue::Int(n) => MetaValueView::Int(*n as int),
            MetaValue::Text(s) => MetaValueView::Text(s@),
            MetaValue::Float(s) => MetaValueView::Float(s@),
            MetaValue::List(v) => MetaValueView::List(strings_view(v@)),
        }
    }
}

/// One entry of the front matter, by its view.
pub type Entry = (Seq<char>, MetaValueView);

/// A quote character.
pub open spec fn is_quote(c: char) -> bool {
    c == '"' || c == '\''
}

/// `t` starts and ends with the same quote character, at two places.
pub open spec fn is_quoted(t: Seq<char>) -> bool {
    t.len() >= 2 && is_quote(t[0]) && t.last() == t[0]
}

/// Unquoting `s` fails: trimmed, it is a lone quote character, which the
/// slice `[1..0]` cannot take.
pub open spec fn unquote_panics(s: Seq<char>) -> bool {
    let t = trim(s);
    t.len() == 1 && is_quote(t[0])
}

/// `s` trimmed, and without the pair of quotes around it if it has one.
pub open spec fn spec_unquote(s: Seq<char>) -> Seq<char> {
    let t = trim(s);
    if is_quoted(t) {
        t.subrange(1, t.len() - 1)
    } else {
        t
    }
}

/// What a scalar reads as, once unquoted.
pub open spec fn classify_scalar(u: Seq<char>) -> MetaValueView {
    if u == "true"@ || u == "yes"@ {
        MetaValueView::Bool(true)
    } else if u == "false"@ || u == "no"@ {
        MetaValueView::Bool(false)
    } else if u == "null"@ || u == "~"@ {
        MetaValueView::Null
    } else {
        match parse_i64(u) {
            Some(n) => MetaValueView::Int(n),
            None => MetaValueView::Text(u),
        }
    }
}

/// The value of the scalar text `s`, or `None` where reading it fails.
pub open spec fn spec_parse_scalar(s: Seq<char>) -> Option<MetaValueView> {
    if s.len() == 0 {
        Some(MetaValueView::Null)
    } else if unquote_panics(s) {
        None
    } else {
        Some(classify_scalar(spec_unquote(s)))
    }
}

/// The line is, after its indentation, a `- ` list item.
pub open spec fn is_item_line(line: Seq<char>) -> bool {
    let t = trim_start(line);
    t.len() >= 2 && t[0] == '-' && t[1] == ' '
}

/// `s` without any number of `- ` prefixes.
pub open spec fn strip_dashes(s: Seq<char>) -> Seq<char>
    decreases s.len(),
{
    if s.len() >= 2 && s[0] == '-' && s[1] == ' ' {
        strip_dashes(s.skip(2))
    } else {
        s
    }
}

/// The text of a list item line.
pub open spec fn item_text(line: Seq<char>) -> Seq<char> {
    trim(strip_dashes(trim_start(line)))
}

/// The line holds only whitespace.
pub open spec fn is_blank(line: Seq<char>) -> bool {
    trim(line).len() == 0
}

/// The line is, after its indentation, a `#` comment.
pub open spec fn is_comment(line: Seq<char>) -> bool {
    let t = trim_start(line);
    t.len() > 0 && t[0] == '#'
}

/// The list items from line `j` on, and the line after them: items run
/// while lines are `- ` items; one blank line after them is consumed.
pub open spec fn scan_items(lines: Seq<Seq<char>>, j: int) -> Option<(int, Seq<Seq<char>>)>
    decreases lines.len() - j,
{
    if j < 0 || j >= lines.len() {
        Some((j, seq![]))
    } else if is_item_line(lines[j]) {
        let item = item_text(lines[j]);
        if unquote_panics(item) {
            None
        } else {
            match scan_items(lines, j + 1) {
                Some(r) => Some((r.0, seq![spec_unquote(item)] + r.1)),
                None => None,
            }
        }
    } else if is_blank(lines[j]) {
        Some((j + 1, seq![]))
    } else {
        Some((j, seq![]))
    }
}

/// The entries read from line `i` on, after the entries `acc`; `None` where
/// reading fails.
pub open spec fn yaml_from(lines: Seq<Seq<char>>, i: int, acc: Seq<Entry>) -> Option<Seq<Entry>>
    decreases lines.len() - i,
{
    if i < 0 || i >= lines.len() {
        Some(acc)
    } else {
        let line = lines[i];
        if is_blank(line) || is_comment(line) {
            yaml_from(lines, i + 1, acc)
        } else {
            match find(line, ':') {
                None => yaml_from(lines, i + 1, acc),
                Some(c) => {
                    let key = trim(line.take(c));
                    let raw = trim(line.skip(c + 1));
                    match scan_items(lines, i + 1) {
                        None => None,
                        Some(r) => if r.1.len() > 0 {
                            if i < r.0 <= lines.len() {
                                yaml_from(
                                    lines,
                                    r.0,
                                    insert_entry(acc, key, MetaValueView::List(r.1)),
                                )
                            } else {
                                None
                            }
                        } else {
                            match spec_parse_scalar(raw) {
                                None => None,
                                Some(v) => yaml_from(
                                    lines,
                                    i + 1,
                                    if key.len() > 0 {
                                        insert_entry(acc, key, v)
                                    } else {
                                        acc
                                    },
                                ),
                            }
                        },
                    }
                },
            }
        }
    }
}

/// The entries of the front matter text `yaml`, in the order in which their
/// keys first appear, each with its last value; `None` where reading fails.
pub open spec fn spec_yaml_map(yaml: Seq<char>) -> Option<Seq<Entry>> {
    yaml_from(lines(yaml), 0, seq![])
}

/// The text opens with `---`.
pub open spec fn opens_block(raw: Seq<char>) -> bool {
    raw.len() >= 3 && raw[0] == '-' && raw[1] == '-' && raw[2] == '-'
}

/// The mark that closes the front matter.
pub open spec fn closing_mark() -> Seq<char> {
    seq!['\n', '-', '-', '-']
}

/// The entries of a note's front matter and the rest of its text; a note
/// without a closed front matter block has no entries and keeps its whole
/// text. `None` where reading fails.
pub open spec fn spec_split(raw: Seq<char>) -> Option<(Seq<Entry>, Seq<char>)> {
    if !opens_block(raw) {
        Some((seq![], raw))
    } else {
        let after = raw.skip(3);
        match find_word(after, closing_mark()) {
            None => Some((seq![], raw)),
            Some(e) => match spec_yaml_map(after.take(e)) {
                None => None,
                Some(m) => Some((m, after.skip(e + 4))),
            },
        }
    }
}

/// Reading the note `raw` fails: some value or list item of its front
/// matter is a lone quote character.
pub open spec fn note_panics(raw: Seq<char>) -> bool {
    spec_split(raw) is None
}

/// The bounds of `spec_unquote(v)` within `v`.
fn unquote_range(v: &[char]) -> (r: (usize, usize))
    ensures
        r.0 <= r.1 <= v@.len(),
        v@.subrange(r.0 as int, r.1 as int) == spec_unquote(v@),
{
    let (a, b) = trim_range(v);
    let ghost t = v@.subrange(a as int, b as int);
    if b - a >= 2 && (v[a] == '"' || v[a] == '\'') && v[b - 1] == v[a] {
        assert(t[0] == v@[a as int]);
        assert(t.last() == v@[b - 1]);
        assert(t.subrange(1, t.len() - 1) =~= v@.subrange(a + 1, b - 1));
        (a + 1, b - 1)
    } else {
        proof {
            if t.len() >= 2 {
                assert(t[0] == v@[a as int]);
                assert(t.last() == v@[b - 1]);
            }
        }
        (a, b)
    }
}

/// Whether unquoting `v` fails.
fn unquote_panics_chars(v: &[char]) -> (b: bool)
    ensures
        b == unquote_panics(v@),
{
    let (a, b) = trim_range(v);
    b - a == 1 && (v[a] == '"' || v[a] == '\'')
}

/// `s` trimmed, and without the pair of quotes around it if it has one.
pub fn unquote(s: &str) -> (r: &str)
    requires
        !unquote_panics(s@),
    ensures
        r@ == spec_unquote(s@),
{
    let v = to_chars(s);
    let (a, b) = unquote_range(&v);
    s.substring_char(a, b)
}

/// What an unquoted scalar reads as.
fn classify(u: &[char]) -> (m: MetaValue)
    ensures
        m@ == classify_scalar(u@),
{
    if eq_str(u, "true") || eq_str(u, "yes") {
        MetaValue::Bool(true)
    } else if eq_str(u, "false") || eq_str(u, "no") {
        MetaValue::Bool(false)
    } else if eq_str(u, "null") || eq_str(u, "~") {
        MetaValue::Null
    } else {
        match parse_i64_chars(u) {
            Some(n) => MetaValue::Int(n),
            None => MetaValue::Text(from_chars(u)),
        }
    }
}

/// The value of the scalar text `s`, or `None` where reading it fails.
pub fn parse_scalar(s: &[char]) -> (r: Option<MetaValue>)
    ensures
        r matches Some(m) ==> spec_parse_scalar(s@) == Some(m@),
        r is None ==> spec_parse_scalar(s@) is None,
{
    if s.len() == 0 {
        return Some(MetaValue::Null);
    }
    if unquote_panics_chars(s) {
        return None;
    }
    let (a, b) = unquote_range(s);
    let u = slice_chars(s, a, b);
    Some(classify(&u))
}

/// The text of a list item line.
fn item_text_chars(line: &[char]) -> (r: Vec<char>)
    ensures
        r@ == item_text(line@),
{
    let t = trim_start_chars(line);
    let mut k: usize = 0;
    assert(t@.skip(0) =~= t@);
    while t.len() - k >= 2 && t[k] == '-' && t[k + 1] == ' '
        invariant
            k <= t@.len(),
            strip_dashes(t@.skip(k as int)) == strip_dashes(t@),
        decreases t@.len() - k,
    {
        assert(t@.skip(k as int).skip(2) =~= t@.skip(k + 2));
        k = k + 2;
    }
    assert(t@.skip(k as int) =~= t@.subrange(k as int, t@.len() as int));
    let rest = slice_chars(&t, k, t.len());
    trim_chars(&rest)
}

/// The result of scanning further lines, after the items `acc`.
pub open spec fn after_items(acc: Seq<Seq<char>>, r: Option<(int, Seq<Seq<char>>)>) -> Option<
    (int, Seq<Seq<char>>),
> {
    match r {
        Some(x) => Some((x.0, acc + x.1)),
        None => None,
    }
}

/// The list items from line `j0` on, and the line after them.
fn scan_list(lines: &Vec<Vec<char>>, j0: usize) -> (r: Option<(usize, Vec<String>)>)
    requires
        j0 <= lines@.len(),
    ensures
        r matches Some(x) ==> scan_items(views(lines@), j0 as int) == Some(
            (x.0 as int, strings_view(x.1@)),
        ),
        r is None ==> scan_items(views(lines@), j0 as int) is None,
{
    let ghost ls = views(lines@);
    let mut items: Vec<String> = Vec::new();
    let mut j = j0;
    assert(strings_view(items@) + Seq::<Seq<char>>::empty() =~= Seq::<Seq<char>>::empty());
    loop
        invariant
            j0 <= j <= lines@.len(),
            ls == views(lines@),
            scan_items(ls, j0 as int) == after_items(strings_view(items@), scan_items(ls, j as int)),
        decreases lines@.len() - j,
    {
        if j >= lines.len() {
            assert(strings_view(items@) + Seq::<Seq<char>>::empty() =~= strings_view(items@));
            return Some((j, items));
        }
        let line = &lines[j];
        assert(ls[j as int] == line@);
        let t = trim_start_chars(line);
        if t.len() >= 2 && t[0] == '-' && t[1] == ' ' {
            let item = item_text_chars(line);
            if unquote_panics_chars(&item) {
                return None;
            }
            let (a, b) = unquote_range(&item);
            let text = from_chars(&slice_chars(&item, a, b));
            let ghost before = strings_view(items@);
            items.push(text);
            assert(strings_view(items@) =~= before + seq![text@]);
            proof {
                match scan_items(ls, j + 1) {
                    Some(x) => {
                        assert(before + (seq![text@] + x.1) =~= strings_view(items@) + x.1);
                    },
                    None => {},
                }
            }
            j = j + 1;
        } else {
            let tt = trim_chars(line);
            if tt.len() == 0 {
                assert(strings_view(items@) + Seq::<Seq<char>>::empty() =~= strings_view(items@));
                return Some((j + 1, items));
            }
            assert(strings_view(items@) + Seq::<Seq<char>>::empty() =~= strings_view(items@));
            return Some((j, items));
        }
    }
}

/// The entries of the front matter text `yaml`, or `None` where reading
/// fails.
pub fn parse_yaml_map(yaml: &[char]) -> (r: Option<KeyedMap<MetaValue>>)
    ensures
        r matches Some(m) ==> spec_yaml_map(yaml@) == Some(m.seq()),
        r is None ==> spec_yaml_map(yaml@) is None,
{
    let rows = lines_of(yaml);
    let ghost ls = views(rows@);
    let mut map: KeyedMap<MetaValue> = KeyedMap::new();
    let mut i: usize = 0;
    while i < rows.len()
        invariant
            i <= rows@.len(),
            ls == views(rows@),
            ls == lines(yaml@),
            spec_yaml_map(yaml@) == yaml_from(ls, i as int, map.seq()),
        decreases rows@.len() - i,
    {
        let line = &rows[i];
        assert(ls[i as int] == line@);
        let t = trim_chars(line);
        let ts = trim_start_chars(line);
        if t.len() == 0 || (ts.len() > 0 && ts[0] == '#') {
            i = i + 1;
        } else {
            match find_char_from(line, ':', 0) {
                None => {
                    i = i + 1;
                },
                Some(c) => {
                    proof {
                        lemma_find_from_bounds(line@, ':', 0);
                    }
                    assert(c < line@.len());
                    assert(c < line.len());
                    let head = slice_chars(line, 0, c);
                    let tail = slice_chars(line, c + 1, line.len());
                    assert(head@ =~= line@.take(c as int));
                    assert(tail@ =~= line@.skip(c + 1));
                    let key = trim_chars(&head);
                    let raw = trim_chars(&tail);
                    match scan_list(&rows, i + 1) {
                        None => {
                            return None;
                        },
                        Some((j, items)) => {
                            if items.len() > 0 {
                                if j <= i || j > rows.len() {
                                    return None;
                                }
                                map.insert(from_chars(&key), MetaValue::List(items));
                                i = j;
                            } else {
                                match parse_scalar(&raw) {
                                    None => {
                                        return None;
                                    },
                                    Some(v) => {
                                        if key.len() > 0 {
                                            map.insert(from_chars(&key), v);
                                        }
                                        i = i + 1;
                                    },
                                }
                            }
                        },
                    }
                },
            }
        }
    }
    Some(map)
}

/// The front matter entries of the note text `raw` and the rest of its
/// text, or `None` where reading fails.
pub fn split_frontmatter(raw: &[char]) -> (r: Option<(KeyedMap<MetaValue>, Vec<char>)>)
    ensures
        r matches Some(x) ==> spec_split(raw@) == Some((x.0.seq(), x.1@)),
        r is None ==> spec_split(raw@) is None,
{
    let whole = slice_chars(raw, 0, raw.len());
    assert(whole@ =~= raw@);
    if !(raw.len() >= 3 && raw[0] == '-' && raw[1] == '-' && raw[2] == '-') {
        return Some((KeyedMap::new(), whole));
    }
    let after = slice_chars(raw, 3, raw.len());
    assert(after@ =~= raw@.skip(3));
    let mark: Vec<char> = vec!['\n', '-', '-', '-'];
    assert(mark@ =~= closing_mark());
    match find_word_chars(&after, &mark) {
        None => Some((KeyedMap::new(), whole)),
        Some(e) => {
            proof {
                lemma_find_word_from(after@, mark@, 0);
            }
            let yaml = slice_chars(&after, 0, e);
            let body = slice_chars(&after, e + 4, after.len());
            assert(yaml@ =~= after@.take(e as int));
            assert(body@ =~= after@.skip(e + 4));
            match parse_yaml_map(&yaml) {
                None => None,
                Some(m) => Some((m, body)),
            }
        },
    }
}

/// The value of an entry once numbers are marked: a text value for which
/// `shown` holds a text is the number shown with it.
pub open spec fn marked(v: MetaValueView, shown: Option<Seq<char>>) -> MetaValueView {
    match (v, shown) {
        (MetaValueView::Text(_), Some(t)) => MetaValueView::Float(t),
        _ => v,
    }
}

/// Marks the text values that are numbers: `shown[i]` holds, for entry `i`,
/// the text of the number its value reads as, where it reads as one that is
/// not an integer.
pub fn mark_numbers(meta: &mut KeyedMap<MetaValue>, shown: Vec<Option<String>>)
    requires
        shown@.len() == old(meta).seq().len(),
    ensures
        final(meta).seq().len() == old(meta).seq().len(),
        forall|i: int|
            0 <= i < old(meta).seq().len() ==> #[trigger] final(meta).seq()[i] == (
                old(meta).seq()[i].0,
                marked(old(meta).seq()[i].1, opt_text(shown@[i])),
            ),
{
    let mut shown = shown;
    let ghost old_seq = meta.seq();
    let ghost old_shown = shown@;
    let n = meta.len();
    let mut i: usize = 0;
    while i < n
        invariant
            n == old_seq.len(),
            old_shown.len() == n,
            i <= n,
            meta.seq().len() == n,
            shown@.len() == n - i,
            forall|j: int| 0 <= j < shown@.len() ==> shown@[j] == old_shown[j + i],
            forall|j: int|
                0 <= j < i ==> #[trigger] meta.seq()[j] == (
                    old_seq[j].0,
                    marked(old_seq[j].1, opt_text(old_shown[j])),
                ),
            forall|j: int| i <= j < n ==> #[trigger] meta.seq()[j] == old_seq[j],
        decreases n - i,
    {
        let s = shown.remove(0);
        let is_text = match meta.entry(i).1 {
            MetaValue::Text(_) => true,
            _ => false,
        };
        match s {
            Some(t) => {
                if is_text {
                    meta.set_value(i, MetaValue::Float(t));
                }
            },
            None => {},
        }
        i = i + 1;
    }
}

/// The view of an optional string.
pub open spec fn opt_text(o: Option<String>) -> Option<Seq<char>> {
    match o {
        Some(s) => Some(s@),
        None => None,
    }
}

/// A note read from a file: where it lies, its front matter and its text.
#[derive(Debug, PartialEq)]
pub struct ParsedNote {
    pub file_path: String,
    pub file_name: String,
    pub meta: KeyedMap<MetaValue>,
    pub body: String,
}

/// Reads the note with the text `raw` found at `path`: its file name, the
/// entries of its front matter and its trimmed text. `None` exactly where
/// reading fails.
pub fn parse_note(path: &str, raw: &str) -> (r: Option<ParsedNote>)
    ensures
        r is None <==> note_panics(raw@),
        r matches Some(n) ==> {
            &&& n.file_path@ == path@
            &&& n.file_name@ == file_name_text(path@)
            &&& n.meta.seq() == spec_split(raw@).unwrap().0
            &&& n.body@ == trim(spec_split(raw@).unwrap().1)
        },
{
    let raw_chars = to_chars(raw);
    let path_chars = to_chars(path);
    match split_frontmatter(&raw_chars) {
        None => None,
        Some((meta, body)) => {
            let name = file_name_chars(&path_chars);
            Some(
                ParsedNote {
                    file_path: from_chars(&path_chars),
                    file_name: from_chars(&name),
                    meta,
                    body: from_chars(&trim_chars(&body)),
                },
            )
        },
    }
}

} // verus!

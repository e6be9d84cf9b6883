//! Properties of the library as a whole, over several of its functions.

use vstd::prelude::*;
use crate::frontmatter::{
    closing_mark, is_blank, is_comment, is_item_line, is_quote, item_text, strip_dashes, opens_block, scan_items, spec_parse_scalar,
    spec_split, spec_unquote, spec_yaml_map, unquote_panics, yaml_from, Entry, MetaValueView,
};
use crate::keyed::{distinct_keys, entries_map, insert_entry, lemma_entries_map, lemma_insert_entry};
use crate::notion::{
    append_request, base_properties, create_request, delete_request, adds_property, known_keys, known_match_from,
    list_request, props_from, spec_block_ids, spec_blocks, spec_build, spec_found, spec_infer,
    spec_refusal,
    spec_normalize, update_request, Method, PayloadView, PropertyView, ReplyView, RequestView,
};
use crate::sync::{
    after_listing, created_id, spec_advance, spec_start, ErrorView, EventView, NoteView,
    OutcomeView, PhaseView, StepView,
};
use crate::text::{
    find, find_from, find_word, find_word_from, int_text, is_digit, is_ws, lemma_nat_text,
    lemma_parse_int_text, lines, lines_from, lower, contains, nat_text, occurs_at, starts_with, strip_cr, trim,
    trim_end, trim_start,
};

verus! {

/// Some entry of `s` has key `k`.
pub open spec fn has_key<A>(s: Seq<(Seq<char>, A)>, k: Seq<char>) -> bool {
    exists|i: int| 0 <= i < s.len() && #[trigger] s[i].0 == k
}

proof fn lemma_insert_keeps_keys<A>(s: Seq<(Seq<char>, A)>, k: Seq<char>, v: A, q: Seq<char>)
    ensures
        has_key(insert_entry(s, k, v), q) <== has_key(s, q) || q == k,
{
    let t = insert_entry(s, k, v);
    crate::keyed::lemma_key_pos_from(s, k, 0);
    if has_key(s, q) {
        let i = choose|i: int| 0 <= i < s.len() && #[trigger] s[i].0 == q;
        assert(t[i].0 == q);
    }
    if q == k {
        match crate::keyed::key_pos(s, k) {
            Some(p) => assert(t[p].0 == k),
            None => assert(t[s.len() as int].0 == k),
        }
    }
}

proof fn lemma_props_from_keeps(meta: Seq<Entry>, i: int, acc: Seq<(Seq<char>, PropertyView)>, q: Seq<char>)
    requires
        0 <= i,
        has_key(acc, q),
    ensures
        has_key(props_from(meta, i, acc), q),
    decreases meta.len() - i,
{
    if i < meta.len() {
        let k = meta[i].0;
        if adds_property(k) {
            match spec_infer(k, meta[i].1) {
                Some(p) => lemma_insert_keeps_keys(acc, spec_normalize(k), p, q),
                None => {},
            }
        }
        let next = if !adds_property(k) {
            acc
        } else {
            match spec_infer(k, meta[i].1) {
                Some(p) => insert_entry(acc, spec_normalize(k), p),
                None => acc,
            }
        };
        lemma_props_from_keeps(meta, i + 1, next, q);
    }
}

proof fn lemma_props_from_adds(meta: Seq<Entry>, i: int, acc: Seq<(Seq<char>, PropertyView)>, j: int)
    requires
        0 <= i <= j < meta.len(),
        adds_property(meta[j].0),
        !(meta[j].1 is Null),
    ensures
        has_key(props_from(meta, i, acc), spec_normalize(meta[j].0)),
    decreases meta.len() - i,
{
    let k = meta[i].0;
    let next = if !adds_property(k) {
        acc
    } else {
        match spec_infer(k, meta[i].1) {
            Some(p) => insert_entry(acc, spec_normalize(k), p),
            None => acc,
        }
    };
    if i == j {
        let p = spec_infer(k, meta[i].1)->0;
        lemma_insert_keeps_keys(acc, spec_normalize(k), p, spec_normalize(k));
        lemma_props_from_keeps(meta, i + 1, next, spec_normalize(k));
    } else {
        lemma_props_from_adds(meta, i + 1, next, j);
    }
}

/// Every field of the front matter that gives a property of its own (all
/// but `title` and those named like `Title` or `File_name`), whose value is
/// not null, becomes a property of the page under its key's property name:
/// fields added to notes later sync with no change to the tool.
pub proof fn law_fields_become_properties(meta: Seq<Entry>, file_name: Seq<char>, j: int)
    requires
        0 <= j < meta.len(),
        adds_property(meta[j].0),
        !(meta[j].1 is Null),
    ensures
        has_key(spec_build(meta, file_name), spec_normalize(meta[j].0)),
{
    lemma_props_from_adds(meta, 0, base_properties(meta, file_name), j);
}

/// Every page has a `Title` and a `File_name` property.
pub proof fn law_title_and_file_name(meta: Seq<Entry>, file_name: Seq<char>)
    ensures
        has_key(spec_build(meta, file_name), "Title"@),
        has_key(spec_build(meta, file_name), "File_name"@),
{
    let b0 = insert_entry(
        Seq::<(Seq<char>, PropertyView)>::empty(),
        "Title"@,
        PropertyView::Title(crate::notion::title_text(meta, file_name)),
    );
    let b = base_properties(meta, file_name);
    lemma_insert_keeps_keys(Seq::<(Seq<char>, PropertyView)>::empty(), "Title"@, PropertyView::Title(crate::notion::title_text(meta, file_name)), "Title"@);
    lemma_insert_keeps_keys(b0, "File_name"@, PropertyView::RichText(file_name), "Title"@);
    lemma_insert_keeps_keys(b0, "File_name"@, PropertyView::RichText(file_name), "File_name"@);
    lemma_props_from_keeps(meta, 0, b, "Title"@);
    lemma_props_from_keeps(meta, 0, b, "File_name"@);
}

/// The entry `meta[j]` puts a property of its own.
pub open spec fn puts(meta: Seq<Entry>, j: int) -> bool {
    adds_property(meta[j].0) && !(meta[j].1 is Null)
}

/// No two entries that put properties of their own share a property name.
pub open spec fn names_distinct(meta: Seq<Entry>) -> bool {
    forall|j1: int, j2: int|
        0 <= j1 < meta.len() && 0 <= j2 < meta.len() && j1 != j2 && puts(meta, j1) && puts(
            meta,
            j2,
        ) ==> spec_normalize(meta[j1].0) != spec_normalize(meta[j2].0)
}

/// The map of properties after the entries `meta[i..]` are added to `m`.
pub open spec fn props_map_from(meta: Seq<Entry>, i: int, m: Map<Seq<char>, PropertyView>) -> Map<
    Seq<char>,
    PropertyView,
>
    decreases meta.len() - i,
{
    if i < 0 || i >= meta.len() {
        m
    } else {
        let k = meta[i].0;
        let next = if !adds_property(k) {
            m
        } else {
            match spec_infer(k, meta[i].1) {
                Some(p) => m.insert(spec_normalize(k), p),
                None => m,
            }
        };
        props_map_from(meta, i + 1, next)
    }
}

proof fn lemma_infer_some(k: Seq<char>, v: MetaValueView)
    ensures
        spec_infer(k, v) is Some <==> !(v is Null),
{
}

proof fn lemma_props_map(meta: Seq<Entry>, i: int, acc: Seq<(Seq<char>, PropertyView)>)
    requires
        0 <= i,
        distinct_keys(acc),
    ensures
        entries_map(props_from(meta, i, acc)) == props_map_from(meta, i, entries_map(acc)),
    decreases meta.len() - i,
{
    if i < meta.len() {
        let k = meta[i].0;
        if adds_property(k) {
            match spec_infer(k, meta[i].1) {
                Some(p) => {
                    lemma_insert_entry(acc, spec_normalize(k), p);
                    lemma_props_map(meta, i + 1, insert_entry(acc, spec_normalize(k), p));
                },
                None => lemma_props_map(meta, i + 1, acc),
            }
        } else {
            lemma_props_map(meta, i + 1, acc);
        }
    }
}

proof fn lemma_pm_contains(meta: Seq<Entry>, i: int, m: Map<Seq<char>, PropertyView>, q: Seq<char>)
    requires
        0 <= i,
    ensures
        props_map_from(meta, i, m).contains_key(q) <==> m.contains_key(q) || exists|j: int|
            i <= j < meta.len() && puts(meta, j) && spec_normalize(meta[j].0) == q,
    decreases meta.len() - i,
{
    if i < meta.len() {
        let k = meta[i].0;
        lemma_infer_some(k, meta[i].1);
        let next = if !adds_property(k) {
            m
        } else {
            match spec_infer(k, meta[i].1) {
                Some(p) => m.insert(spec_normalize(k), p),
                None => m,
            }
        };
        lemma_pm_contains(meta, i + 1, next, q);
        if exists|j: int| i <= j < meta.len() && puts(meta, j) && spec_normalize(meta[j].0) == q {
            let j = choose|j: int| i <= j < meta.len() && puts(meta, j) && spec_normalize(meta[j].0) == q;
            if j > i {
                assert(i + 1 <= j < meta.len() && puts(meta, j) && spec_normalize(meta[j].0) == q);
            }
        }
        if exists|j: int| i + 1 <= j < meta.len() && puts(meta, j) && spec_normalize(meta[j].0) == q {
            let j = choose|j: int|
                i + 1 <= j < meta.len() && puts(meta, j) && spec_normalize(meta[j].0) == q;
            assert(i <= j < meta.len() && puts(meta, j) && spec_normalize(meta[j].0) == q);
        }
        if puts(meta, i) && spec_normalize(k) == q {
            assert(i <= i < meta.len() && puts(meta, i) && spec_normalize(meta[i].0) == q);
        }
    }
}

proof fn lemma_pm_keep(meta: Seq<Entry>, i: int, m: Map<Seq<char>, PropertyView>, q: Seq<char>)
    requires
        0 <= i,
        forall|j: int| i <= j < meta.len() && puts(meta, j) ==> spec_normalize(meta[j].0) != q,
    ensures
        props_map_from(meta, i, m)[q] == m[q],
    decreases meta.len() - i,
{
    if i < meta.len() {
        let k = meta[i].0;
        lemma_infer_some(k, meta[i].1);
        let next = if !adds_property(k) {
            m
        } else {
            match spec_infer(k, meta[i].1) {
                Some(p) => m.insert(spec_normalize(k), p),
                None => m,
            }
        };
        assert(puts(meta, i) ==> spec_normalize(meta[i].0) != q);
        lemma_pm_keep(meta, i + 1, next, q);
    }
}

proof fn lemma_pm_one(meta: Seq<Entry>, i: int, m: Map<Seq<char>, PropertyView>, j0: int)
    requires
        0 <= i <= j0 < meta.len(),
        puts(meta, j0),
        forall|j: int|
            i <= j < meta.len() && j != j0 && puts(meta, j) ==> spec_normalize(meta[j].0)
                != spec_normalize(meta[j0].0),
    ensures
        props_map_from(meta, i, m)[spec_normalize(meta[j0].0)] == spec_infer(
            meta[j0].0,
            meta[j0].1,
        )->0,
    decreases meta.len() - i,
{
    let k = meta[i].0;
    lemma_infer_some(k, meta[i].1);
    let next = if !adds_property(k) {
        m
    } else {
        match spec_infer(k, meta[i].1) {
            Some(p) => m.insert(spec_normalize(k), p),
            None => m,
        }
    };
    if i == j0 {
        lemma_pm_keep(meta, i + 1, next, spec_normalize(k));
    } else {
        lemma_pm_one(meta, i + 1, next, j0);
    }
}

proof fn lemma_base_map(meta: Seq<Entry>, file_name: Seq<char>)
    ensures
        distinct_keys(base_properties(meta, file_name)),
        entries_map(base_properties(meta, file_name)) == Map::<Seq<char>, PropertyView>::empty().insert(
            "Title"@,
            PropertyView::Title(crate::notion::title_text(meta, file_name)),
        ).insert("File_name"@, PropertyView::RichText(file_name)),
{
    let e = Seq::<(Seq<char>, PropertyView)>::empty();
    let t = PropertyView::Title(crate::notion::title_text(meta, file_name));
    lemma_insert_entry(e, "Title"@, t);
    assert(entries_map(e) =~= Map::<Seq<char>, PropertyView>::empty());
    lemma_insert_entry(insert_entry(e, "Title"@, t), "File_name"@, PropertyView::RichText(file_name));
}

/// The property names of a page are exactly `Title`, `File_name`, and the
/// names of the fields that put properties of their own: properties come
/// from no other place.
pub proof fn law_property_names(meta: Seq<Entry>, file_name: Seq<char>, q: Seq<char>)
    ensures
        entries_map(spec_build(meta, file_name)).contains_key(q) <==> q == "Title"@ || q
            == "File_name"@ || exists|j: int|
            0 <= j < meta.len() && puts(meta, j) && spec_normalize(meta[j].0) == q,
{
    lemma_base_map(meta, file_name);
    lemma_props_map(meta, 0, base_properties(meta, file_name));
    lemma_pm_contains(meta, 0, entries_map(base_properties(meta, file_name)), q);
}

/// The `Title` property is the `title` field where that is a string, else
/// the file name; the `File_name` property is the file name, whatever the
/// fields are; a field that puts a property of its own, under a name no
/// other such field has, gives it the property its value infers.
pub proof fn law_property_values(meta: Seq<Entry>, file_name: Seq<char>, j: int)
    ensures
        entries_map(spec_build(meta, file_name))["Title"@] == PropertyView::Title(
            crate::notion::title_text(meta, file_name),
        ),
        entries_map(spec_build(meta, file_name))["File_name"@] == PropertyView::RichText(file_name),
        0 <= j < meta.len() && puts(meta, j) && names_distinct(meta) ==> entries_map(
            spec_build(meta, file_name),
        )[spec_normalize(meta[j].0)] == spec_infer(meta[j].0, meta[j].1)->0,
{
    let b = entries_map(base_properties(meta, file_name));
    lemma_base_map(meta, file_name);
    lemma_props_map(meta, 0, base_properties(meta, file_name));
    lemma_pm_keep(meta, 0, b, "Title"@);
    lemma_pm_keep(meta, 0, b, "File_name"@);
    assert("Title"@ != "File_name"@) by {
        reveal_strlit("Title");
        reveal_strlit("File_name");
        assert("Title"@.len() != "File_name"@.len());
    }
    if 0 <= j < meta.len() && puts(meta, j) && names_distinct(meta) {
        lemma_pm_one(meta, 0, b, j);
    }
}

proof fn lemma_same_entry(m1: Seq<Entry>, m2: Seq<Entry>, j: int)
    requires
        distinct_keys(m1),
        distinct_keys(m2),
        entries_map(m1) == entries_map(m2),
        0 <= j < m1.len(),
    ensures
        exists|j2: int| 0 <= j2 < m2.len() && m2[j2] == m1[j],
{
    lemma_entries_map(m1);
    lemma_entries_map(m2);
    assert(entries_map(m1).contains_key(m1[j].0));
    let j2 = choose|j2: int| 0 <= j2 < m2.len() && m2[j2].0 == m1[j].0;
    assert(entries_map(m2)[m2[j2].0] == m2[j2].1);
    assert(entries_map(m1)[m1[j].0] == m1[j].1);
    assert(m2[j2] == m1[j]);
}

proof fn lemma_title_same(m1: Seq<Entry>, m2: Seq<Entry>, file_name: Seq<char>)
    requires
        distinct_keys(m1),
        distinct_keys(m2),
        entries_map(m1) == entries_map(m2),
    ensures
        crate::notion::title_text(m1, file_name) == crate::notion::title_text(m2, file_name),
{
    crate::keyed::lemma_key_pos_from(m1, "title"@, 0);
    crate::keyed::lemma_key_pos_from(m2, "title"@, 0);
    lemma_entries_map(m1);
    lemma_entries_map(m2);
    match crate::keyed::key_pos(m1, "title"@) {
        Some(i1) => {
            assert(entries_map(m1).contains_key("title"@));
            let i2 = choose|i: int| 0 <= i < m2.len() && m2[i].0 == "title"@;
            assert(entries_map(m2)[m2[i2].0] == m2[i2].1);
            assert(entries_map(m1)[m1[i1].0] == m1[i1].1);
        },
        None => {
            if entries_map(m1).contains_key("title"@) {
                let i = choose|i: int| 0 <= i < m1.len() && m1[i].0 == "title"@;
            }
            if entries_map(m2).contains_key("title"@) {
                let i = choose|i: int| 0 <= i < m2.len() && m2[i].0 == "title"@;
            }
        },
    }
}

/// The properties of a page do not depend on the order of its fields: two
/// front matters with the same fields give the same properties, where no
/// two fields that put properties of their own share a property name.
pub proof fn law_properties_order_free(m1: Seq<Entry>, m2: Seq<Entry>, file_name: Seq<char>)
    requires
        distinct_keys(m1),
        distinct_keys(m2),
        entries_map(m1) == entries_map(m2),
        names_distinct(m1),
        names_distinct(m2),
    ensures
        entries_map(spec_build(m1, file_name)) == entries_map(spec_build(m2, file_name)),
{
    let p1 = entries_map(spec_build(m1, file_name));
    let p2 = entries_map(spec_build(m2, file_name));
    lemma_title_same(m1, m2, file_name);
    law_property_values(m1, file_name, 0);
    law_property_values(m2, file_name, 0);
    assert forall|q: Seq<char>| #[trigger] p1.contains_key(q) <==> p2.contains_key(q) by {
        law_property_names(m1, file_name, q);
        law_property_names(m2, file_name, q);
        if exists|j: int| 0 <= j < m1.len() && puts(m1, j) && spec_normalize(m1[j].0) == q {
            let j = choose|j: int| 0 <= j < m1.len() && puts(m1, j) && spec_normalize(m1[j].0) == q;
            lemma_same_entry(m1, m2, j);
            let j2 = choose|j2: int| 0 <= j2 < m2.len() && m2[j2] == m1[j];
            assert(0 <= j2 < m2.len() && puts(m2, j2) && spec_normalize(m2[j2].0) == q);
        }
        if exists|j: int| 0 <= j < m2.len() && puts(m2, j) && spec_normalize(m2[j].0) == q {
            let j = choose|j: int| 0 <= j < m2.len() && puts(m2, j) && spec_normalize(m2[j].0) == q;
            lemma_same_entry(m2, m1, j);
            let j1 = choose|j1: int| 0 <= j1 < m1.len() && m1[j1] == m2[j];
            assert(0 <= j1 < m1.len() && puts(m1, j1) && spec_normalize(m1[j1].0) == q);
        }
    }
    assert forall|q: Seq<char>| #[trigger] p1.contains_key(q) implies p1[q] == p2[q] by {
        law_property_names(m1, file_name, q);
        if q != "Title"@ && q != "File_name"@ {
            let j = choose|j: int| 0 <= j < m1.len() && puts(m1, j) && spec_normalize(m1[j].0) == q;
            lemma_same_entry(m1, m2, j);
            let j2 = choose|j2: int| 0 <= j2 < m2.len() && m2[j2] == m1[j];
            law_property_values(m1, file_name, j);
            law_property_values(m2, file_name, j2);
        }
    }
    assert(p1 =~= p2);
}

proof fn lemma_known_match_same(a: Seq<char>, b: Seq<char>, i: int)
    requires
        lower(a) == lower(b),
    ensures
        known_match_from(a, i) == known_match_from(b, i),
    decreases known_keys().len() - i,
{
    if 0 <= i < known_keys().len() {
        lemma_known_match_same(a, b, i + 1);
    }
}

proof fn lemma_known_match_lower(a: Seq<char>, i: int)
    ensures
        known_match_from(a, i) matches Some(k) ==> lower(k) == lower(a),
    decreases known_keys().len() - i,
{
    if 0 <= i < known_keys().len() {
        lemma_known_match_lower(a, i + 1);
    }
}

/// A property name is its own property name.
pub proof fn law_normalize_idempotent(key: Seq<char>)
    ensures
        spec_normalize(spec_normalize(key)) == spec_normalize(key),
{
    lemma_known_match_lower(key, 0);
    match known_match_from(key, 0) {
        Some(k) => lemma_known_match_same(k, key, 0),
        None => {},
    }
}

proof fn lemma_trim_fixed(t: Seq<char>)
    requires
        t.len() > 0,
        !is_ws(t[0]),
        !is_ws(t.last()),
    ensures
        trim(t) == t,
{
}

/// A text between a pair of equal quote characters unquotes to itself.
pub proof fn law_unquote_pair(q: char, s: Seq<char>)
    requires
        is_quote(q),
    ensures
        !unquote_panics(seq![q] + s + seq![q]),
        spec_unquote(seq![q] + s + seq![q]) == s,
{
    let t = seq![q] + s + seq![q];
    lemma_trim_fixed(t);
    assert(t.subrange(1, t.len() - 1) =~= s);
}

/// The decimal text of an integer reads back as that integer.
pub proof fn law_integer_roundtrip(n: i64)
    ensures
        spec_parse_scalar(int_text(n as int)) == Some(MetaValueView::Int(n as int)),
{
    let t = int_text(n as int);
    lemma_parse_int_text(n);
    let m: nat = if n < 0 {
        (-n) as nat
    } else {
        n as nat
    };
    lemma_nat_text(m);
    let d = nat_text(m);
    assert(is_digit(d.last()));
    assert(is_digit(t.last())) by {
        if n < 0 {
            assert(t.last() == d.last());
        }
    }
    assert(t[0] == '-' || is_digit(t[0]));
    lemma_trim_fixed(t);
    reveal_strlit("true");
    reveal_strlit("yes");
    reveal_strlit("false");
    reveal_strlit("no");
    reveal_strlit("null");
    reveal_strlit("~");
    assert(t != "true"@ && t != "yes"@ && t != "false"@ && t != "no"@ && t != "null"@ && t
        != "~"@) by {
        assert(t[0] != "true"@[0]);
        assert(t[0] != "yes"@[0]);
        assert(t[0] != "false"@[0]);
        assert(t[0] != "no"@[0]);
        assert(t[0] != "null"@[0]);
        assert(t[0] != "~"@[0]);
    }
}

/// A note whose text does not open a front matter block, or never closes
/// it, has no fields, and its sync skips it without a request.
pub proof fn law_no_frontmatter_skipped(raw: Seq<char>, db: Seq<char>, file_name: Seq<char>, dry_run: bool)
    requires
        !opens_block(raw) || find_word(raw.skip(3), closing_mark()) is None,
    ensures
        spec_split(raw) == Some((Seq::<Entry>::empty(), raw)),
        spec_start(
            db,
            NoteView { meta: spec_split(raw).unwrap().0, file_name, body: trim(raw) },
            dry_run,
        ) == (PhaseView::Done, StepView::Finish(Ok(OutcomeView::SkippedNoFrontmatter))),
{
}

/// The steps of a sync in phase `phase` as the events `evs` come, until it
/// is over.
pub open spec fn drive(db: Seq<char>, note: NoteView, phase: PhaseView, evs: Seq<EventView>) -> Seq<
    StepView,
>
    decreases evs.len(),
{
    if evs.len() == 0 || phase is Done {
        seq![]
    } else {
        let (next, step) = spec_advance(db, note, phase, evs[0]);
        seq![step] + drive(db, note, next, evs.drop_first())
    }
}

/// The deletion requests of the blocks `ids`, in order.
pub open spec fn deletions(ids: Seq<Seq<char>>) -> Seq<StepView>
    decreases ids.len(),
{
    if ids.len() == 0 {
        seq![]
    } else {
        seq![StepView::Send(delete_request(ids[0]))] + deletions(ids.drop_first())
    }
}

/// What a finished request gives at the end of a sync: a failure ends it
/// with its error, a reply with `done`.
pub open spec fn finish_after(ev: EventView, done: OutcomeView) -> StepView {
    match ev {
        EventView::Failed(e) => StepView::Finish(Err(ErrorView::Transport(e))),
        EventView::Replied(_) => StepView::Finish(Ok(done)),
    }
}

/// The steps after the blocks of page `id` are deleted, where `last` is
/// what comes of the append: the append and the update's end if the note
/// has blocks, else the update's end at once.
pub open spec fn append_steps(id: Seq<char>, note: NoteView, last: EventView) -> Seq<StepView> {
    if spec_blocks(note.body).len() > 0 {
        seq![
            StepView::Send(append_request(id, note.body)),
            finish_after(last, OutcomeView::Updated(id)),
        ]
    } else {
        seq![StepView::Finish(Ok(OutcomeView::Updated(id)))]
    }
}

proof fn lemma_deletions(db: Seq<char>, note: NoteView, id: Seq<char>, ids: Seq<Seq<char>>, evs: Seq<EventView>)
    requires
        evs.len() == ids.len() + 1,
    ensures
        ({
            let (p, st) = after_listing(id, ids, note);
            seq![st] + drive(db, note, p, evs) == deletions(ids) + append_steps(id, note, evs.last())
        }),
    decreases ids.len(),
{
    let (p, st) = after_listing(id, ids, note);
    if ids.len() > 0 {
        let rest = ids.drop_first();
        let e2 = evs.drop_first();
        lemma_deletions(db, note, id, rest, e2);
        let (p2, st2) = after_listing(id, rest, note);
        assert(spec_advance(db, note, p, evs[0]) == (p2, st2));
        assert(drive(db, note, p, evs) == seq![st2] + drive(db, note, p2, e2));
        assert(e2.last() == evs.last());
        assert(seq![st] + (seq![st2] + drive(db, note, p2, e2)) =~= seq![st] + (deletions(rest)
            + append_steps(id, note, evs.last())));
        assert(deletions(ids) == seq![st] + deletions(rest));
        assert(seq![st] + (deletions(rest) + append_steps(id, note, evs.last())) =~= deletions(ids)
            + append_steps(id, note, evs.last()));
    } else {
        assert(deletions(ids) =~= Seq::<StepView>::empty());
        let a = evs[0];
        assert(evs.drop_first() =~= Seq::<EventView>::empty());
        if spec_blocks(note.body).len() > 0 {
            let (p2, st2) = spec_advance(db, note, p, a);
            assert(drive(db, note, p, evs) == seq![st2] + drive(db, note, p2, evs.drop_first()));
            assert(drive(db, note, p2, evs.drop_first()) =~= Seq::<StepView>::empty());
            assert(seq![st] + drive(db, note, p, evs) =~= append_steps(id, note, evs.last()));
        } else {
            assert(drive(db, note, p, evs) =~= Seq::<StepView>::empty());
            assert(seq![st] + drive(db, note, p, evs) =~= append_steps(id, note, evs.last()));
        }
    }
}

/// Clearing page `id`: once its blocks are listed, each listed block is
/// deleted in turn, whatever comes of each deletion, and then the note's
/// blocks are appended; a reply without a list of results lists no block.
/// A listing that fails ends the sync with its error, and deletes nothing.
pub proof fn law_clear_blocks(
    db: Seq<char>,
    note: NoteView,
    id: Seq<char>,
    listing: EventView,
    evs: Seq<EventView>,
)
    requires
        listing matches EventView::Replied(r) ==> evs.len() == spec_block_ids(r).len() + 1,
    ensures
        drive(db, note, PhaseView::List(id), seq![listing] + evs) == match listing {
            EventView::Failed(e) => seq![StepView::Finish(Err(ErrorView::Transport(e)))],
            EventView::Replied(r) => deletions(spec_block_ids(r)) + append_steps(id, note, evs.last()),
        },
{
    let all = seq![listing] + evs;
    assert(all.drop_first() =~= evs);
    let (p, st) = spec_advance(db, note, PhaseView::List(id), listing);
    assert(drive(db, note, PhaseView::List(id), all) == seq![st] + drive(db, note, p, evs));
    match listing {
        EventView::Failed(e) => {
            assert(drive(db, note, p, evs) =~= Seq::<StepView>::empty());
            assert(seq![st] + drive(db, note, p, evs) =~= seq![
                StepView::Finish(Err(ErrorView::Transport(e))),
            ]);
        },
        EventView::Replied(r) => {
            lemma_deletions(db, note, id, spec_block_ids(r), evs);
        },
    }
}

/// A sync whose query fails ends with that error, and sends nothing more.
pub proof fn law_query_fails(db: Seq<char>, note: NoteView, e: Seq<char>, rest: Seq<EventView>)
    ensures
        drive(db, note, PhaseView::Query, seq![EventView::Failed(e)] + rest) == seq![
            StepView::Finish(Err(ErrorView::Transport(e))),
        ],
{
    let all = seq![EventView::Failed(e)] + rest;
    assert(all.drop_first() =~= rest);
    assert(drive(db, note, PhaseView::Done, rest) =~= Seq::<StepView>::empty());
    assert(seq![StepView::Finish(Err(ErrorView::Transport(e)))] + drive(db, note, PhaseView::Done, rest)
        =~= seq![StepView::Finish(Err(ErrorView::Transport(e)))]);
}

/// A note whose page the query does not find is synced by creating the
/// page, and only that: the sync ends with the new page's id, with Notion's
/// refusal, or with the failure of the request.
pub proof fn law_create_route(
    db: Seq<char>,
    note: NoteView,
    query: ReplyView,
    created: EventView,
    rest: Seq<EventView>,
)
    requires
        spec_found(query) is None,
    ensures
        drive(db, note, PhaseView::Query, seq![EventView::Replied(query), created] + rest) == seq![
            StepView::Send(create_request(db, note.meta, note.file_name, note.body)),
            match created {
                EventView::Failed(e) => StepView::Finish(Err(ErrorView::Transport(e))),
                EventView::Replied(r) => if r.has_code {
                    StepView::Finish(Err(ErrorView::Notion(spec_refusal(r))))
                } else {
                    StepView::Finish(Ok(OutcomeView::Created(created_id(r))))
                },
            },
        ],
{
    let all = seq![EventView::Replied(query), created] + rest;
    let e1 = all.drop_first();
    assert(e1 =~= seq![created] + rest);
    assert(e1.drop_first() =~= rest);
    let (p1, s1) = spec_advance(db, note, PhaseView::Query, all[0]);
    let (p2, s2) = spec_advance(db, note, p1, e1[0]);
    assert(drive(db, note, p1, e1) == seq![s2] + drive(db, note, p2, rest));
    assert(drive(db, note, p2, rest) =~= Seq::<StepView>::empty());
    assert(drive(db, note, PhaseView::Query, all) =~= seq![s1, s2]);
}

/// A note whose page the query finds is synced by updating that page and
/// no other, and never by creating one: its properties are set; unless
/// that fails or is refused, its blocks are listed; unless that fails,
/// each listed block is deleted in turn and the note's blocks appended.
/// The sync ends `Updated` exactly when each of these requests, but the
/// deletions, got a reply that was not a refusal.
pub proof fn law_update_route(
    db: Seq<char>,
    note: NoteView,
    query: ReplyView,
    update: EventView,
    listing: EventView,
    evs: Seq<EventView>,
)
    requires
        spec_found(query) is Some,
        listing matches EventView::Replied(r) ==> evs.len() == spec_block_ids(r).len() + 1,
    ensures
        ({
            let id = spec_found(query)->0;
            drive(
                db,
                note,
                PhaseView::Query,
                seq![EventView::Replied(query), update, listing] + evs,
            ) == seq![StepView::Send(update_request(id, note.meta, note.file_name))] + match update {
                EventView::Failed(e) => seq![StepView::Finish(Err(ErrorView::Transport(e)))],
                EventView::Replied(u) => if u.has_code {
                    seq![StepView::Finish(Err(ErrorView::Notion(spec_refusal(u))))]
                } else {
                    seq![StepView::Send(list_request(id))] + match listing {
                        EventView::Failed(e) => seq![StepView::Finish(Err(ErrorView::Transport(e)))],
                        EventView::Replied(r) => deletions(spec_block_ids(r)) + append_steps(
                            id,
                            note,
                            evs.last(),
                        ),
                    }
                },
            }
        }),
{
    let id = spec_found(query)->0;
    let all = seq![EventView::Replied(query), update, listing] + evs;
    let e1 = all.drop_first();
    let e2 = e1.drop_first();
    assert(e1 =~= seq![update, listing] + evs);
    assert(e2 =~= seq![listing] + evs);
    let (p1, s1) = spec_advance(db, note, PhaseView::Query, all[0]);
    assert(drive(db, note, PhaseView::Query, all) == seq![s1] + drive(db, note, p1, e1));
    let (p2, s2) = spec_advance(db, note, p1, e1[0]);
    assert(drive(db, note, p1, e1) == seq![s2] + drive(db, note, p2, e2));
    match update {
        EventView::Failed(e) => {
            assert(drive(db, note, p2, e2) =~= Seq::<StepView>::empty());
            assert(drive(db, note, PhaseView::Query, all) =~= seq![s1, s2]);
        },
        EventView::Replied(u) => {
            if u.has_code {
                assert(drive(db, note, p2, e2) =~= Seq::<StepView>::empty());
                assert(drive(db, note, PhaseView::Query, all) =~= seq![s1, s2]);
            } else {
                law_clear_blocks(db, note, id, listing, evs);
                assert(drive(db, note, PhaseView::Query, all) =~= seq![s1] + (seq![s2] + drive(
                    db,
                    note,
                    p2,
                    e2,
                )));
            }
        },
    }
}

proof fn lemma_find_from_first(s: Seq<char>, c: char, i: int, j: int)
    requires
        0 <= i <= j < s.len(),
        s[j] == c,
        forall|m: int| i <= m < j ==> s[m] != c,
    ensures
        find_from(s, c, i) == Some(j),
    decreases j - i,
{
    if i < j {
        lemma_find_from_first(s, c, i + 1, j);
    }
}

proof fn lemma_find_from_none(s: Seq<char>, c: char, i: int)
    requires
        0 <= i,
        forall|m: int| i <= m < s.len() ==> s[m] != c,
    ensures
        find_from(s, c, i) is None,
    decreases s.len() - i,
{
    if i < s.len() {
        lemma_find_from_none(s, c, i + 1);
    }
}

proof fn lemma_find_word_first(s: Seq<char>, w: Seq<char>, i: int, j: int)
    requires
        0 <= i <= j,
        occurs_at(s, w, j),
        forall|m: int| i <= m < j ==> !occurs_at(s, w, m),
    ensures
        find_word_from(s, w, i) == Some(j),
    decreases j - i,
{
    if i < j {
        lemma_find_word_first(s, w, i + 1, j);
    }
}

proof fn lemma_trim_start_concat(a: Seq<char>, b: Seq<char>)
    requires
        trim_start(a).len() > 0,
    ensures
        trim_start(a + b) == trim_start(a) + b,
    decreases a.len(),
{
    if a.len() > 0 && is_ws(a[0]) {
        assert((a + b).drop_first() =~= a.drop_first() + b);
        lemma_trim_start_concat(a.drop_first(), b);
    } else {
        assert(a.len() > 0);
        assert((a + b)[0] == a[0]);
    }
}

/// The closing mark after a front matter line without line breaks that
/// does not itself open with `---`.
proof fn lemma_single_line_closing(line: Seq<char>, key: Seq<char>, body: Seq<char>)
    requires
        forall|i: int| 0 <= i < line.len() ==> line[i] != '\n',
        key.len() < line.len(),
        line[key.len() as int] == ':',
        line.take(key.len() as int) == key,
        !starts_with(key, seq!['-', '-', '-']),
    ensures
        find_word(seq!['\n'] + line + closing_mark() + body, closing_mark()) == Some(
            1 + line.len() as int,
        ),
{
    let after = seq!['\n'] + line + closing_mark() + body;
    let e: int = 1 + line.len() as int;
    assert(after.subrange(e, e + 4) =~= closing_mark());
    assert forall|m: int| 0 <= m < e implies !occurs_at(after, closing_mark(), m) by {
        if occurs_at(after, closing_mark(), m) {
            assert(after.subrange(m, m + 4)[0] == '\n');
            if m == 0 {
                if key.len() < 3 {
                    assert(after[1 + key.len() as int] == line[key.len() as int]);
                    assert(after.subrange(0, 4)[1 + key.len() as int] == ':');
                } else {
                    assert(after.subrange(1, 4) =~= key.take(3)) by {
                        assert forall|t: int| 0 <= t < 3 implies after[1 + t] == key[t] by {
                            assert(line.take(key.len() as int)[t] == line[t]);
                        }
                    }
                    assert(after.subrange(0, 4).subrange(1, 4) =~= after.subrange(1, 4));
                    assert(key.take(3) =~= seq!['-', '-', '-']);
                }
            } else {
                assert(after[m] == line[m - 1]);
            }
        }
    }
    lemma_find_word_first(after, closing_mark(), 0, e);
}

/// The entries of a front matter made of an empty line and one field line.
proof fn lemma_single_line_yaml(key: Seq<char>, value: Seq<char>)
    requires
        trim(key).len() > 0,
        trim_start(key)[0] != '#',
        forall|i: int| 0 <= i < key.len() ==> key[i] != ':' && key[i] != '\n',
        forall|i: int| 0 <= i < value.len() ==> value[i] != '\n',
    ensures
        spec_yaml_map(seq!['\n'] + (key + seq![':', ' '] + value)) == match spec_parse_scalar(
            trim(value),
        ) {
            Some(v) => Some(seq![(trim(key), v)]),
            None => None,
        },
{
    let line = key + seq![':', ' '] + value;
    let yaml = seq!['\n'] + line;
    assert forall|i: int| 0 <= i < line.len() implies line[i] != '\n' by {
        if i < key.len() {
            assert(line[i] == key[i]);
        } else if i >= key.len() + 2 {
            assert(line[i] == value[i - key.len() - 2]);
        }
    }
    lemma_find_from_first(yaml, '\n', 0, 0);
    lemma_find_from_none(yaml, '\n', 1);
    assert(yaml.subrange(0, 0) =~= Seq::<char>::empty());
    assert(yaml.subrange(1, yaml.len() as int) =~= line);
    assert(lines_from(yaml, 1) == seq![line]);
    assert(strip_cr(Seq::<char>::empty()) =~= Seq::<char>::empty());
    let ls = lines(yaml);
    assert(ls =~= seq![Seq::<char>::empty(), line]);
    lemma_trim_start_concat(key, seq![':', ' '] + value);
    assert(line =~= key + (seq![':', ' '] + value));
    assert(trim_start(key).len() > 0) by {
        lemma_trim_end_len(trim_start(key));
    }
    assert(trim_start(line)[0] == trim_start(key)[0]);
    assert(!is_comment(line));
    assert(line[key.len() as int] == ':');
    assert(!is_blank(line)) by {
        lemma_trim_keeps(line, key.len() as int);
    }
    lemma_find_from_first(line, ':', 0, key.len() as int);
    assert(line.take(key.len() as int) =~= key);
    assert(line.skip(key.len() as int + 1) =~= seq![' '] + value);
    assert((seq![' '] + value).drop_first() =~= value);
    assert(trim(seq![' '] + value) == trim(value));
    assert(scan_items(ls, 2) == Some((2int, Seq::<Seq<char>>::empty())));
    assert(is_blank(ls[0]));
    let empty = Seq::<Entry>::empty();
    assert(yaml_from(ls, 0, empty) == yaml_from(ls, 1, empty));
    assert(find(line, ':') == Some(key.len() as int));
    assert(trim(line.take(key.len() as int)) == trim(key));
    assert(trim(line.skip(key.len() as int + 1)) == trim(value));
    match spec_parse_scalar(trim(value)) {
        Some(v) => {
            let acc = insert_entry(empty, trim(key), v);
            assert(acc =~= seq![(trim(key), v)]);
            assert(yaml_from(ls, 2, acc) == Some(acc));
            assert(yaml_from(ls, 1, empty) == yaml_from(ls, 2, acc));
        },
        None => {
            assert(yaml_from(ls, 1, empty) is None);
        },
    }
}

/// A note whose front matter is the single field `key: value` reads back
/// that field: its key trimmed, and its value read as a scalar; the rest of
/// the text follows the closing mark.
pub proof fn law_single_field_roundtrip(key: Seq<char>, value: Seq<char>, body: Seq<char>)
    requires
        trim(key).len() > 0,
        trim_start(key)[0] != '#',
        !starts_with(key, seq!['-', '-', '-']),
        forall|i: int| 0 <= i < key.len() ==> key[i] != ':' && key[i] != '\n',
        forall|i: int| 0 <= i < value.len() ==> value[i] != '\n',
    ensures
        spec_split(
            seq!['-', '-', '-', '\n'] + key + seq![':', ' '] + value + seq!['\n', '-', '-', '-'] + body,
        ) == match spec_parse_scalar(trim(value)) {
            Some(v) => Some((seq![(trim(key), v)], body)),
            None => None,
        },
{
    let line = key + seq![':', ' '] + value;
    let raw = seq!['-', '-', '-', '\n'] + key + seq![':', ' '] + value + seq!['\n', '-', '-', '-'] + body;
    let after = raw.skip(3);
    let e: int = 1 + line.len() as int;
    assert(after =~= seq!['\n'] + line + closing_mark() + body);
    assert forall|i: int| 0 <= i < line.len() implies line[i] != '\n' by {
        if i < key.len() {
            assert(line[i] == key[i]);
        } else if i >= key.len() + 2 {
            assert(line[i] == value[i - key.len() - 2]);
        }
    }
    assert(line.take(key.len() as int) =~= key);
    lemma_single_line_closing(line, key, body);
    assert(after.take(e) =~= seq!['\n'] + line);
    assert(after.skip(e + 4) =~= body);
    lemma_single_line_yaml(key, value);
}

proof fn lemma_trim_end_len(s: Seq<char>)
    ensures
        trim_end(s).len() <= s.len(),
    decreases s.len(),
{
    if s.len() > 0 && is_ws(s.last()) {
        lemma_trim_end_len(s.drop_last());
    }
}

/// A text with a character that is not whitespace does not trim to nothing.
proof fn lemma_trim_keeps(s: Seq<char>, i: int)
    requires
        0 <= i < s.len(),
        !is_ws(s[i]),
    ensures
        trim(s).len() > 0,
{
    lemma_trim_start_keeps(s, i);
    let t = trim_start(s);
    let j = choose|j: int| 0 <= j < t.len() && !is_ws(t[j]);
    lemma_trim_end_keeps(t, j);
}

proof fn lemma_trim_start_keeps(s: Seq<char>, i: int)
    requires
        0 <= i < s.len(),
        !is_ws(s[i]),
    ensures
        exists|j: int| 0 <= j < trim_start(s).len() && !is_ws(trim_start(s)[j]),
    decreases s.len(),
{
    if is_ws(s[0]) {
        assert(s.drop_first()[i - 1] == s[i]);
        lemma_trim_start_keeps(s.drop_first(), i - 1);
        assert(trim_start(s) == trim_start(s.drop_first()));
    } else {
        assert(trim_start(s) == s);
        assert(0 < trim_start(s).len() && !is_ws(trim_start(s)[0]));
    }
}

proof fn lemma_trim_end_keeps(s: Seq<char>, i: int)
    requires
        0 <= i < s.len(),
        !is_ws(s[i]),
    ensures
        trim_end(s).len() > 0,
    decreases s.len(),
{
    if is_ws(s.last()) {
        assert(s.drop_last()[i] == s[i]);
        lemma_trim_end_keeps(s.drop_last(), i);
    }
}


/// A sync of a note with front matter, not a dry run, starts by asking the
/// database's query endpoint for the pages whose `File_name` is the note's
/// file name, whatever its title and other fields.
pub proof fn law_start_looks_up_file_name(db: Seq<char>, note: NoteView, dry_run: bool)
    requires
        note.meta.len() > 0,
        !dry_run,
    ensures
        spec_start(db, note, dry_run) == (
            PhaseView::Query,
            StepView::Send(
                RequestView {
                    method: Method::Post,
                    url: "https://api.notion.com/v1/databases/"@ + db + "/query"@,
                    payload: PayloadView::FindByFileName(note.file_name),
                },
            ),
        ),
{
}

/// The property of a value does not depend on the case of the ASCII
/// letters of its key.
pub proof fn law_infer_ignores_case(k1: Seq<char>, k2: Seq<char>, v: MetaValueView)
    requires
        lower(k1) == lower(k2),
    ensures
        spec_infer(k1, v) == spec_infer(k2, v),
{
}

/// What property a value gives, by the lower-case form of its key: none for
/// null; for a string, a date under a key holding `created`, `updated` or
/// `scheduled`, else a URL under a key holding `url` or equal to
/// `used_in_post`, else a status under `status` or `source`; for a list
/// under `tags`, its items as options; otherwise rich text.
pub proof fn law_infer_kinds(
    k: Seq<char>,
    s: Seq<char>,
    items: Seq<Seq<char>>,
    n: int,
    t: Seq<char>,
    b: bool,
)
    ensures
        spec_infer(k, MetaValueView::Null) is None,
        contains(lower(k), "created"@) || contains(lower(k), "updated"@) || contains(
            lower(k),
            "scheduled"@,
        ) ==> spec_infer(k, MetaValueView::Text(s)) == Some(PropertyView::Date(s)),
        !(contains(lower(k), "created"@) || contains(lower(k), "updated"@) || contains(
            lower(k),
            "scheduled"@,
        )) && (contains(lower(k), "url"@) || lower(k) == "used_in_post"@) ==> spec_infer(
            k,
            MetaValueView::Text(s),
        ) == Some(PropertyView::Url(s)),
        !(contains(lower(k), "created"@) || contains(lower(k), "updated"@) || contains(
            lower(k),
            "scheduled"@,
        )) && !(contains(lower(k), "url"@) || lower(k) == "used_in_post"@) && (lower(k)
            == "status"@ || lower(k) == "source"@) ==> spec_infer(k, MetaValueView::Text(s))
            == Some(PropertyView::Status(s)),
        !(contains(lower(k), "created"@) || contains(lower(k), "updated"@) || contains(
            lower(k),
            "scheduled"@,
        )) && !(contains(lower(k), "url"@) || lower(k) == "used_in_post"@) && !(lower(k)
            == "status"@ || lower(k) == "source"@) ==> spec_infer(k, MetaValueView::Text(s))
            == Some(PropertyView::RichText(s)),
        lower(k) == "tags"@ ==> spec_infer(k, MetaValueView::List(items)) == Some(
            PropertyView::MultiSelect(items),
        ),
        lower(k) != "tags"@ ==> spec_infer(k, MetaValueView::List(items)) == Some(
            PropertyView::RichText(crate::notion::json_list_text(items)),
        ),
        spec_infer(k, MetaValueView::Int(n)) == Some(PropertyView::RichText(int_text(n))),
        spec_infer(k, MetaValueView::Float(t)) == Some(PropertyView::RichText(t)),
        spec_infer(k, MetaValueView::Bool(b)) == Some(
            PropertyView::RichText(
                if b {
                    "true"@
                } else {
                    "false"@
                },
            ),
        ),
{
}

proof fn lemma_match_at(k: Seq<char>, i: int)
    requires
        0 <= i < known_keys().len(),
        lower(known_keys()[i]) == lower(k),
        forall|j: int| 0 <= j < i ==> lower(known_keys()[j]) != lower(known_keys()[i]),
    ensures
        spec_normalize(k) == known_keys()[i],
{
    lemma_match_from(k, 0, i);
}

proof fn lemma_match_from(k: Seq<char>, j: int, i: int)
    requires
        0 <= j <= i < known_keys().len(),
        lower(known_keys()[i]) == lower(k),
        forall|t: int| 0 <= t < i ==> lower(known_keys()[t]) != lower(known_keys()[i]),
    ensures
        known_match_from(k, j) == Some(known_keys()[i]),
    decreases i - j,
{
    if j < i {
        lemma_match_from(k, j + 1, i);
    }
}

proof fn lemma_lower_len(s: Seq<char>)
    ensures
        lower(s).len() == s.len(),
{
}

proof fn lemma_no_match(k: Seq<char>, j: int)
    requires
        0 <= j,
        forall|t: int| j <= t < known_keys().len() ==> lower(known_keys()[t]) != lower(k),
    ensures
        known_match_from(k, j) is None,
    decreases known_keys().len() - j,
{
    if j < known_keys().len() {
        lemma_no_match(k, j + 1);
    }
}

/// The lower-case forms of the known names differ from one another.
proof fn lemma_known_lower_distinct()
    ensures
        forall|i: int, j: int|
            0 <= i < known_keys().len() && 0 <= j < known_keys().len() && i != j ==> lower(
                known_keys()[i],
            ) != lower(known_keys()[j]),
{
    reveal_strlit("ID");
    reveal_strlit("Description");
    reveal_strlit("Status");
    reveal_strlit("Created");
    reveal_strlit("Tags");
    reveal_strlit("Updated");
    reveal_strlit("File_name");
    reveal_strlit("Used_In_Post");
    reveal_strlit("Scheduled_Post");
    reveal_strlit("Source");
    let ks = known_keys();
    assert forall|i: int, j: int|
        0 <= i < ks.len() && 0 <= j < ks.len() && i != j implies lower(ks[i]) != lower(ks[j]) by {
        lemma_lower_len(ks[i]);
        lemma_lower_len(ks[j]);
        if ks[i].len() == ks[j].len() {
            // Only Status and Source, and Created and Updated, share a
            // length; their second characters differ.
            assert(lower(ks[i])[1] == ks[i][1]);
            assert(lower(ks[j])[1] == ks[j][1]);
        }
    }
}

/// Each known name is the property name of every key equal to it when case
/// is ignored, and a key equal to none of them keeps its own name.
pub proof fn law_known_names(k: Seq<char>)
    ensures
        lower(k) == lower("ID"@) ==> spec_normalize(k) == "ID"@,
        lower(k) == lower("Description"@) ==> spec_normalize(k) == "Description"@,
        lower(k) == lower("Status"@) ==> spec_normalize(k) == "Status"@,
        lower(k) == lower("Created"@) ==> spec_normalize(k) == "Created"@,
        lower(k) == lower("Tags"@) ==> spec_normalize(k) == "Tags"@,
        lower(k) == lower("Updated"@) ==> spec_normalize(k) == "Updated"@,
        lower(k) == lower("File_name"@) ==> spec_normalize(k) == "File_name"@,
        lower(k) == lower("Used_In_Post"@) ==> spec_normalize(k) == "Used_In_Post"@,
        lower(k) == lower("Scheduled_Post"@) ==> spec_normalize(k) == "Scheduled_Post"@,
        lower(k) == lower("Source"@) ==> spec_normalize(k) == "Source"@,
        lower(k) != lower("ID"@) && lower(k) != lower("Description"@) && lower(k) != lower(
            "Status"@,
        ) && lower(k) != lower("Created"@) && lower(k) != lower("Tags"@) && lower(k) != lower(
            "Updated"@,
        ) && lower(k) != lower("File_name"@) && lower(k) != lower("Used_In_Post"@) && lower(k)
            != lower("Scheduled_Post"@) && lower(k) != lower("Source"@) ==> spec_normalize(k) == k,
{
    lemma_known_lower_distinct();
    let ks = known_keys();
    assert forall|i: int| 0 <= i < ks.len() && lower(ks[i]) == lower(k) implies spec_normalize(k)
        == ks[i] by {
        lemma_match_at(k, i);
    }
    if forall|t: int| 0 <= t < ks.len() ==> lower(ks[t]) != lower(k) {
        lemma_no_match(k, 0);
    }
    assert(ks[0] == "ID"@);
    assert(ks[1] == "Description"@);
    assert(ks[2] == "Status"@);
    assert(ks[3] == "Created"@);
    assert(ks[4] == "Tags"@);
    assert(ks[5] == "Updated"@);
    assert(ks[6] == "File_name"@);
    assert(ks[7] == "Used_In_Post"@);
    assert(ks[8] == "Scheduled_Post"@);
    assert(ks[9] == "Source"@);
}

/// The update of a page sends the same properties as the creation of the
/// page would, to the page's address: the title from the front matter and
/// a property for every field that puts one.
pub proof fn law_update_carries_fields(
    id: Seq<char>,
    db: Seq<char>,
    meta: Seq<Entry>,
    name: Seq<char>,
    body: Seq<char>,
)
    ensures
        update_request(id, meta, name).method == Method::Patch,
        update_request(id, meta, name).url == "https://api.notion.com/v1/pages/"@ + id,
        create_request(db, meta, name, body).payload matches PayloadView::NewPage {
            properties,
            ..
        } && update_request(id, meta, name).payload == PayloadView::Properties(properties),
        update_request(id, meta, name).payload matches PayloadView::Properties(p) && entries_map(
            p,
        )["Title"@] == PropertyView::Title(crate::notion::title_text(meta, name)) && forall|j: int|
            0 <= j < meta.len() && #[trigger] puts(meta, j) ==> entries_map(p).contains_key(
                spec_normalize(meta[j].0),
            ),
{
    law_property_values(meta, name, 0);
    assert forall|j: int| 0 <= j < meta.len() && #[trigger] puts(meta, j) implies entries_map(
        spec_build(meta, name),
    ).contains_key(spec_normalize(meta[j].0)) by {
        law_property_names(meta, name, spec_normalize(meta[j].0));
    }
}


/// The text of the lines `ls`, joined by line breaks.
pub open spec fn joined(ls: Seq<Seq<char>>) -> Seq<char>
    decreases ls.len(),
{
    if ls.len() == 0 {
        seq![]
    } else if ls.len() == 1 {
        ls[0]
    } else {
        ls[0] + seq!['\n'] + joined(ls.drop_first())
    }
}

/// The text of `- ` items, each on a line of its own after a line break
/// and its indentation `inds[i]`.
pub open spec fn items_text(inds: Seq<Seq<char>>, xs: Seq<Seq<char>>) -> Seq<char>
    decreases xs.len(),
{
    if xs.len() == 0 || inds.len() == 0 {
        seq![]
    } else {
        seq!['\n'] + inds[0] + seq!['-', ' '] + xs[0] + items_text(inds.drop_first(), xs.drop_first())
    }
}

/// An item text that reads as itself: not empty, with no whitespace at its
/// ends, not opening with `-` or a quote, and with no line break.
pub open spec fn plain_item(x: Seq<char>) -> bool {
    &&& x.len() > 0
    &&& !is_ws(x[0])
    &&& !is_ws(x.last())
    &&& x[0] != '-'
    &&& !is_quote(x[0])
    &&& forall|i: int| 0 <= i < x.len() ==> x[i] != '\n'
}

/// An indentation: whitespace without line breaks, possibly none.
pub open spec fn indentation(w: Seq<char>) -> bool {
    forall|i: int| 0 <= i < w.len() ==> is_ws(w[i]) && w[i] != '\n'
}

proof fn lemma_find_shift(p: Seq<char>, t: Seq<char>, c: char, j: int)
    requires
        0 <= j,
    ensures
        find_from(p + t, c, p.len() + j) == match find_from(t, c, j) {
            Some(k) => Some(p.len() + k),
            None => None,
        },
    decreases t.len() - j,
{
    if j < t.len() {
        assert((p + t)[p.len() + j] == t[j]);
        lemma_find_shift(p, t, c, j + 1);
    }
}

proof fn lemma_lines_shift(p: Seq<char>, t: Seq<char>, j: int)
    requires
        0 <= j,
    ensures
        lines_from(p + t, p.len() + j) == lines_from(t, j),
    decreases t.len() - j,
{
    if j < t.len() {
        lemma_find_shift(p, t, '\n', j);
        crate::text::lemma_find_from_bounds(t, '\n', j);
        match find_from(t, '\n', j) {
            Some(k) => {
                lemma_lines_shift(p, t, k + 1);
                assert((p + t).subrange(p.len() + j, p.len() + k) =~= t.subrange(j, k));
            },
            None => {
                assert((p + t).subrange(p.len() + j, (p + t).len() as int) =~= t.subrange(
                    j,
                    t.len() as int,
                ));
            },
        }
    }
}

/// The lines of a text joined from lines without line breaks, none of them
/// empty or ending with a carriage return, are those lines.
proof fn lemma_lines_joined(ls: Seq<Seq<char>>)
    requires
        ls.len() > 0,
        forall|i: int|
            0 <= i < ls.len() ==> (#[trigger] ls[i]).len() > 0 && ls[i].last() != '\r' && forall|
                m: int,
            |
                0 <= m < ls[i].len() ==> ls[i][m] != '\n',
    ensures
        lines(joined(ls)) == ls,
    decreases ls.len(),
{
    let a = ls[0];
    if ls.len() == 1 {
        lemma_find_from_none(a, '\n', 0);
        assert(a.subrange(0, a.len() as int) =~= a);
        assert(lines(a) =~= seq![a]);
    } else {
        let rest = ls.drop_first();
        assert forall|i: int| 0 <= i < rest.len() implies (#[trigger] rest[i]).len() > 0
            && rest[i].last() != '\r' && forall|m: int|
            0 <= m < rest[i].len() ==> rest[i][m] != '\n' by {
            assert(rest[i] == ls[i + 1]);
        }
        lemma_lines_joined(rest);
        let t = joined(rest);
        let p = a + seq!['\n'];
        let s = a + seq!['\n'] + t;
        assert(joined(ls) == s);
        assert(s =~= p + t);
        assert(s[a.len() as int] == '\n');
        assert forall|m: int| 0 <= m < a.len() implies s[m] != '\n' by {
            assert(s[m] == a[m]);
        }
        lemma_find_from_first(s, '\n', 0, a.len() as int);
        lemma_lines_shift(p, t, 0);
        assert(s.subrange(0, a.len() as int) =~= a);
        assert(lines(s) == seq![strip_cr(a)] + lines_from(s, a.len() as int + 1));
        assert(lines(s) =~= ls);
    }
}

/// The item lines of `items_text(inds, xs)`.
pub open spec fn item_lines(inds: Seq<Seq<char>>, xs: Seq<Seq<char>>) -> Seq<Seq<char>> {
    Seq::new(xs.len(), |i: int| inds[i] + seq!['-', ' '] + xs[i])
}

proof fn lemma_items_joined(head: Seq<char>, inds: Seq<Seq<char>>, xs: Seq<Seq<char>>)
    requires
        inds.len() == xs.len(),
    ensures
        head + items_text(inds, xs) == joined(seq![head] + item_lines(inds, xs)),
    decreases xs.len(),
{
    if xs.len() > 0 {
        let h2 = inds[0] + seq!['-', ' '] + xs[0];
        lemma_items_joined(h2, inds.drop_first(), xs.drop_first());
        let ls = seq![head] + item_lines(inds, xs);
        assert(ls.drop_first() =~= seq![h2] + item_lines(inds.drop_first(), xs.drop_first()));
        assert(head + items_text(inds, xs) =~= head + seq!['\n'] + (h2 + items_text(
            inds.drop_first(),
            xs.drop_first(),
        )));
    } else {
        assert(seq![head] + item_lines(inds, xs) =~= seq![head]);
        assert(head + items_text(inds, xs) =~= head);
    }
}

proof fn lemma_trim_start_ws(w: Seq<char>, y: Seq<char>)
    requires
        forall|i: int| 0 <= i < w.len() ==> is_ws(w[i]),
    ensures
        trim_start(w + y) == trim_start(y),
    decreases w.len(),
{
    if w.len() > 0 {
        assert((w + y).drop_first() =~= w.drop_first() + y);
        lemma_trim_start_ws(w.drop_first(), y);
    } else {
        assert(w + y =~= y);
    }
}

proof fn lemma_plain_item(w: Seq<char>, x: Seq<char>)
    requires
        indentation(w),
        plain_item(x),
    ensures
        is_item_line(w + seq!['-', ' '] + x),
        item_text(w + seq!['-', ' '] + x) == x,
        !unquote_panics(item_text(w + seq!['-', ' '] + x)),
        spec_unquote(item_text(w + seq!['-', ' '] + x)) == x,
{
    let l = w + seq!['-', ' '] + x;
    let d = seq!['-', ' '] + x;
    assert(l =~= w + d);
    lemma_trim_start_ws(w, d);
    assert(trim_start(d) == d);
    assert(d.skip(2) =~= x);
    assert(strip_dashes(d) == strip_dashes(x));
    assert(strip_dashes(x) == x);
    lemma_trim_fixed(x);
}

/// A field line `key:` followed by `- ` item lines, with any indentation or
/// none, reads as that key holding the list of the items.
pub proof fn law_list_items(key: Seq<char>, inds: Seq<Seq<char>>, xs: Seq<Seq<char>>)
    requires
        trim(key).len() > 0,
        trim_start(key)[0] != '#',
        forall|i: int| 0 <= i < key.len() ==> key[i] != ':' && key[i] != '\n',
        xs.len() > 0,
        inds.len() == xs.len(),
        forall|i: int| 0 <= i < xs.len() ==> indentation(#[trigger] inds[i]) && plain_item(xs[i]),
    ensures
        spec_yaml_map(key + seq![':'] + items_text(inds, xs)) == Some(
            seq![(trim(key), MetaValueView::List(xs))],
        ),
{
    let head = key + seq![':'];
    let its = item_lines(inds, xs);
    let ls = seq![head] + its;
    lemma_items_joined(head, inds, xs);
    assert forall|i: int|
        0 <= i < ls.len() implies (#[trigger] ls[i]).len() > 0 && ls[i].last() != '\r' && forall|
            m: int,
        |
            0 <= m < ls[i].len() ==> ls[i][m] != '\n' by {
        if i == 0 {
            assert forall|m: int| 0 <= m < head.len() implies head[m] != '\n' by {
                if m < key.len() {
                    assert(head[m] == key[m]);
                }
            }
        } else {
            let w = inds[i - 1];
            let x = xs[i - 1];
            assert(indentation(w) && plain_item(x));
            assert(ls[i] == w + seq!['-', ' '] + x);
            assert(ls[i].last() == x.last());
            assert forall|m: int| 0 <= m < ls[i].len() implies ls[i][m] != '\n' by {
                if m < w.len() {
                    assert(ls[i][m] == w[m]);
                } else if m >= w.len() + 2 {
                    assert(ls[i][m] == x[m - w.len() - 2]);
                }
            }
        }
    }
    lemma_lines_joined(ls);
    assert(lines(key + seq![':'] + items_text(inds, xs)) == ls);
    // The field line.
    lemma_trim_start_concat(key, seq![':']);
    assert(trim_start(key).len() > 0) by {
        lemma_trim_end_len(trim_start(key));
    }
    assert(trim_start(head)[0] == trim_start(key)[0]);
    assert(head[key.len() as int] == ':');
    lemma_trim_keeps(head, key.len() as int);
    lemma_find_from_first(head, ':', 0, key.len() as int);
    assert(head.take(key.len() as int) =~= key);
    assert(crate::parse_laws::field_line(ls[0]));
    assert(crate::parse_laws::field_key(ls[0]) == trim(key));
    // The items.
    assert forall|t: int| 1 <= t < ls.len() implies is_item_line(#[trigger] ls[t]) && !unquote_panics(
        item_text(ls[t]),
    ) by {
        lemma_plain_item(inds[t - 1], xs[t - 1]);
    }
    crate::parse_laws::law_list_field(ls, 0, ls.len() as int, Seq::<Entry>::empty());
    let items = crate::parse_laws::items_of(ls, 1, ls.len() as int);
    assert(items =~= xs) by {
        assert forall|t: int| 0 <= t < xs.len() implies items[t] == xs[t] by {
            lemma_plain_item(inds[t], xs[t]);
            assert(ls.subrange(1, ls.len() as int)[t] == ls[t + 1]);
        }
    }
    assert(insert_entry(Seq::<Entry>::empty(), trim(key), MetaValueView::List(items)) =~= seq![
        (trim(key), MetaValueView::List(xs)),
    ]);
}


/// A note with front matter is skipped on a dry run, with no request.
pub proof fn law_dry_run_sends_nothing(db: Seq<char>, note: NoteView)
    requires
        note.meta.len() > 0,
    ensures
        spec_start(db, note, true) == (
            PhaseView::Done,
            StepView::Finish(Ok(OutcomeView::SkippedDryRun)),
        ),
{
}

/// Where each request goes and what it carries: a new page goes to the
/// pages endpoint with the database, the note's properties and its blocks;
/// a page's blocks are listed, and blocks appended, at the page's children
/// endpoint; a block is deleted at its own address.
pub proof fn law_request_addresses(
    db: Seq<char>,
    meta: Seq<Entry>,
    name: Seq<char>,
    body: Seq<char>,
    id: Seq<char>,
)
    ensures
        create_request(db, meta, name, body) == (RequestView {
            method: Method::Post,
            url: "https://api.notion.com/v1/pages"@,
            payload: PayloadView::NewPage {
                database_id: db,
                properties: spec_build(meta, name),
                children: spec_blocks(body),
            },
        }),
        list_request(id) == (RequestView {
            method: Method::Get,
            url: "https://api.notion.com/v1/blocks/"@ + id + "/children"@,
            payload: PayloadView::Empty,
        }),
        delete_request(id) == (RequestView {
            method: Method::Delete,
            url: "https://api.notion.com/v1/blocks/"@ + id,
            payload: PayloadView::Empty,
        }),
        append_request(id, body) == (RequestView {
            method: Method::Patch,
            url: "https://api.notion.com/v1/blocks/"@ + id + "/children"@,
            payload: PayloadView::Children(spec_blocks(body)),
        }),
{
}

/// A query finds a page exactly where its first result has a non-empty
/// id: that page.
pub proof fn law_found_first(r: ReplyView, v: Seq<Option<Seq<char>>>, id: Seq<char>)
    ensures
        r.results is None ==> spec_found(r) is None,
        r.results == Some(v) && v.len() == 0 ==> spec_found(r) is None,
        r.results == Some(v) && v.len() > 0 && v[0] == Some(id) && id.len() > 0 ==> spec_found(r)
            == Some(id),
{
}

proof fn lemma_somes_all(v: Seq<Option<Seq<char>>>)
    requires
        forall|i: int| 0 <= i < v.len() ==> v[i] is Some,
    ensures
        crate::notion::somes(v) == v.map_values(|o: Option<Seq<char>>| o->0),
    decreases v.len(),
{
    if v.len() > 0 {
        lemma_somes_all(v.drop_last());
        assert(v.last() is Some);
        assert(crate::notion::somes(v) =~= v.map_values(|o: Option<Seq<char>>| o->0));
    } else {
        assert(v.map_values(|o: Option<Seq<char>>| o->0) =~= Seq::<Seq<char>>::empty());
    }
}

/// A listing names its results' ids in order where each has one, and no
/// block where it has no list of results.
pub proof fn law_listed_ids(r: ReplyView, v: Seq<Option<Seq<char>>>)
    ensures
        r.results is None ==> spec_block_ids(r) == Seq::<Seq<char>>::empty(),
        r.results == Some(v) && (forall|i: int| 0 <= i < v.len() ==> v[i] is Some)
            ==> spec_block_ids(r) == v.map_values(|o: Option<Seq<char>>| o->0),
{
    if r.results == Some(v) && (forall|i: int| 0 <= i < v.len() ==> v[i] is Some) {
        lemma_somes_all(v);
    }
}

/// The `Title` property holds the `title` field where that is a string,
/// and the file name where the note has no `title` field or a title that
/// is not a string.
pub proof fn law_title_source(meta: Seq<Entry>, file_name: Seq<char>, i: int, t: Seq<char>)
    requires
        distinct_keys(meta),
    ensures
        0 <= i < meta.len() && meta[i] == ("title"@, MetaValueView::Text(t)) ==> entries_map(
            spec_build(meta, file_name),
        )["Title"@] == PropertyView::Title(t),
        (forall|j: int| 0 <= j < meta.len() ==> meta[j].0 != "title"@ || !(meta[j].1 is Text))
            ==> entries_map(spec_build(meta, file_name))["Title"@] == PropertyView::Title(file_name),
{
    law_property_values(meta, file_name, 0);
    crate::keyed::lemma_key_pos_from(meta, "title"@, 0);
    if 0 <= i < meta.len() && meta[i] == ("title"@, MetaValueView::Text(t)) {
        let p = crate::keyed::key_pos(meta, "title"@)->0;
        assert(meta[p].0 == meta[i].0);
    }
}

/// A text line opened by `# `, `## ` or `### ` is a heading of that level
/// holding the rest of the line; a line opened by none of them is a
/// paragraph holding the whole line.
pub proof fn law_heading_lines(t: Seq<char>, line: Seq<char>)
    ensures
        crate::notion::line_block(seq!['#', ' '] + t) == (crate::notion::BlockView {
            kind: crate::notion::BlockKind::Heading1,
            text: t,
        }),
        crate::notion::line_block(seq!['#', '#', ' '] + t) == (crate::notion::BlockView {
            kind: crate::notion::BlockKind::Heading2,
            text: t,
        }),
        crate::notion::line_block(seq!['#', '#', '#', ' '] + t) == (crate::notion::BlockView {
            kind: crate::notion::BlockKind::Heading3,
            text: t,
        }),
        !starts_with(line, seq!['#', ' ']) && !starts_with(line, seq!['#', '#', ' '])
            && !starts_with(line, seq!['#', '#', '#', ' ']) ==> crate::notion::line_block(line) == (
        crate::notion::BlockView { kind: crate::notion::BlockKind::Paragraph, text: line }),
{
    let l1 = seq!['#', ' '] + t;
    let l2 = seq!['#', '#', ' '] + t;
    let l3 = seq!['#', '#', '#', ' '] + t;
    let p1 = seq!['#', ' '];
    let p2 = seq!['#', '#', ' '];
    let p3 = seq!['#', '#', '#', ' '];
    assert(l1.take(2) =~= p1);
    assert(l1.skip(2) =~= t);
    assert(!starts_with(l1, p3)) by {
        if l1.len() >= 4 {
            assert(l1.take(4)[1] != p3[1]);
        }
    }
    assert(!starts_with(l1, p2)) by {
        if l1.len() >= 3 {
            assert(l1.take(3)[1] != p2[1]);
        }
    }
    assert(l2.take(3) =~= p2);
    assert(l2.skip(3) =~= t);
    assert(!starts_with(l2, p3)) by {
        if l2.len() >= 4 {
            assert(l2.take(4)[2] != p3[2]);
        }
    }
    assert(l3.take(4) =~= p3);
    assert(l3.skip(4) =~= t);
}

/// A text has one block per line.
pub proof fn law_one_block_per_line(body: Seq<char>)
    ensures
        spec_blocks(body).len() == lines(body).len(),
        forall|i: int| 0 <= i < lines(body).len() ==> #[trigger] spec_blocks(body)[i]
            == crate::notion::line_block(lines(body)[i]),
{
}

/// The file name of a path is its last component, after the last `/`,
/// where that is a name: not empty, `.` or `..`.
pub proof fn law_file_name_last(dir: Seq<char>, n: Seq<char>)
    requires
        n.len() > 0,
        n != seq!['.'],
        n != seq!['.', '.'],
        forall|i: int| 0 <= i < n.len() ==> n[i] != '/',
    ensures
        crate::path::file_name(dir + seq!['/'] + n) == Some(n),
        crate::path::file_name(n) == Some(n),
{
    let p = dir + seq!['/'] + n;
    lemma_rfind_none(n, n.len() as int);
    lemma_rfind_last(p, dir.len() as int, p.len() as int);
    assert(p.subrange(dir.len() + 1 as int, p.len() as int) =~= n);
    assert(n.subrange(0, n.len() as int) =~= n);
}

proof fn lemma_rfind_none(n: Seq<char>, j: int)
    requires
        0 <= j <= n.len(),
        forall|i: int| 0 <= i < n.len() ==> n[i] != '/',
    ensures
        crate::path::rfind_upto(n, '/', j) is None,
    decreases j,
{
    if j > 0 {
        lemma_rfind_none(n, j - 1);
    }
}

proof fn lemma_rfind_last(p: Seq<char>, k: int, j: int)
    requires
        0 <= k < j <= p.len(),
        p[k] == '/',
        forall|i: int| k < i < j ==> p[i] != '/',
    ensures
        crate::path::rfind_upto(p, '/', j) == Some(k),
    decreases j,
{
    if j - 1 > k {
        lemma_rfind_last(p, k, j - 1);
    }
}

} // verus!

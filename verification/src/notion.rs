//! What the notes become in Notion: page properties inferred from the front
//! matter, blocks from the text, and the requests of the Notion API.

use vstd::prelude::*;
use vstd::string::*;
use crate::config::Config;
use crate::frontmatter::{strings_view, Entry, MetaValue, MetaValueView, ParsedNote};
use crate::keyed::{insert_entry, key_pos, KeyedMap};
use crate::text::{
    contains, contains_chars, eq_str, from_chars, int_text, int_text_chars, lines, lines_of,
    lower, lower_chars, slice_chars, starts_with, starts_with_chars, to_chars, views,
};

verus! {

/// A client of one Notion database.
pub struct NotionClient {
    token: String,
    version: String,
    database_id: String,
}

impl NotionClient {
    /// The integration token.
    pub closed spec fn token_view(&self) -> Seq<char> {
        self.token@
    }

    /// The API version.
    pub closed spec fn version_view(&self) -> Seq<char> {
        self.version@
    }

    /// The database the pages go to.
    pub closed spec fn database_view(&self) -> Seq<char> {
        self.database_id@
    }

    /// A client for the database, token and API version of the settings.
    pub fn new(cfg: &Config) -> (c: Self)
        ensures
            c.token_view() == cfg.notion_token@,
            c.version_view() == cfg.notion_version@,
            c.database_view() == cfg.notion_database_id@,
    {
        NotionClient {
            token: cfg.notion_token.clone(),
            version: cfg.notion_version.clone(),
            database_id: cfg.notion_database_id.clone(),
        }
    }

    /// The integration token, sent with each request.
    pub fn token(&self) -> (r: &str)
        ensures
            r@ == self.token_view(),
    {
        self.token.as_str()
    }

    /// The API version, sent with each request.
    pub fn version(&self) -> (r: &str)
        ensures
            r@ == self.version_view(),
    {
        self.version.as_str()
    }
}

/// A property of a Notion page.
#[derive(Debug, PartialEq)]
pub enum Property {
    Title(String),
    RichText(String),
    Date(String),
    Url(String),
    Status(String),
    MultiSelect(Vec<String>),
}

/// What a `Property` holds.
pub enum PropertyView {
    Title(Seq<char>),
    RichText(Seq<char>),
    Date(Seq<char>),
    Url(Seq<char>),
    Status(Seq<char>),
    MultiSelect(Seq<Seq<char>>),
}

impl View for Property {
    type V = PropertyView;

    open spec fn view(&self) -> PropertyView {
        match self {
            Property::Title(s) => PropertyView::Title(s@),
            Property::RichText(s) => PropertyView::RichText(s@),
            Property::Date(s) => PropertyView::Date(s@),
            Property::Url(s) => PropertyView::Url(s@),
            Property::Status(s) => PropertyView::Status(s@),
            Property::MultiSelect(v) => PropertyView::MultiSelect(strings_view(v@)),
        }
    }
}

/// The kind of a block of page text.
#[derive(Debug, Clone, Copy, PartialEq, Eq, Structural)]
pub enum BlockKind {
    Heading1,
    Heading2,
    Heading3,
    Paragraph,
}

/// A block of page text.
#[derive(Debug, PartialEq)]
pub struct Block {
    pub kind: BlockKind,
    pub text: String,
}

/// What a `Block` holds.
pub struct BlockView {
    pub kind: BlockKind,
    pub text: Seq<char>,
}

impl View for Block {
    type V = BlockView;

    open spec fn view(&self) -> BlockView {
        BlockView { kind: self.kind, text: self.text@ }
    }
}

/// The views of a sequence of blocks.
pub open spec fn blocks_view(v: Seq<Block>) -> Seq<BlockView> {
    v.map_values(|b: Block| b@)
}

/// The property names that front matter keys take, whatever their case.
pub open spec fn known_keys() -> Seq<Seq<char>> {
    seq![
        "ID"@,
        "Description"@,
        "Status"@,
        "Created"@,
        "Tags"@,
        "Updated"@,
        "File_name"@,
        "Used_In_Post"@,
        "Scheduled_Post"@,
        "Source"@,
    ]
}

/// The first known name, from position `i` on, that `key` equals when case
/// is ignored.
pub open spec fn known_match_from(key: Seq<char>, i: int) -> Option<Seq<char>>
    decreases known_keys().len() - i,
{
    if i < 0 || i >= known_keys().len() {
        None
    } else if lower(known_keys()[i]) == lower(key) {
        Some(known_keys()[i])
    } else {
        known_match_from(key, i + 1)
    }
}

/// The property name of a front matter key: the known name that it equals
/// when case is ignored, else the key itself.
///
/// Case is compared by ASCII letters. `str::to_lowercase` maps other
/// characters too, but no character outside ASCII lower-cases to a text
/// equal to a known name, so the result is the same.
pub open spec fn spec_normalize(key: Seq<char>) -> Seq<char> {
    match known_match_from(key, 0) {
        Some(k) => k,
        None => key,
    }
}

/// The property name of a front matter key.
pub fn normalize_key(key: &str) -> (r: String)
    ensures
        r@ == spec_normalize(key@),
{
    let known: [&str; 10] = [
        "ID",
        "Description",
        "Status",
        "Created",
        "Tags",
        "Updated",
        "File_name",
        "Used_In_Post",
        "Scheduled_Post",
        "Source",
    ];
    assert(known@.map_values(|s: &str| s@) =~= known_keys());
    let lk = lower_chars(&to_chars(key));
    let mut i: usize = 0;
    while i < 10
        invariant
            i <= 10,
            known@.map_values(|s: &str| s@) == known_keys(),
            lk@ == lower(key@),
            known_match_from(key@, 0) == known_match_from(key@, i as int),
        decreases 10 - i,
    {
        let k = known[i];
        assert(k@ == known_keys()[i as int]);
        let lkn = lower_chars(&to_chars(k));
        if crate::text::eq_chars(&lkn, &lk) {
            return from_chars(&to_chars(k));
        }
        i = i + 1;
    }
    from_chars(&to_chars(key))
}

/// The text of a string value, if the value is one.
pub open spec fn str_value(v: MetaValueView) -> Option<Seq<char>> {
    match v {
        MetaValueView::Text(s) => Some(s),
        _ => None,
    }
}

/// A lower-case hexadecimal digit.
pub open spec fn hex_digit(n: nat) -> char {
    if n < 10 {
        (('0' as nat) + n) as char
    } else {
        (('a' as nat) + n - 10) as char
    }
}

/// How one character stands in a JSON string: `"` and `\` after a
/// backslash, the control characters with a short escape by it, the other
/// control characters as `\u00XX`, and any other character as itself.
pub open spec fn json_escape_char(c: char) -> Seq<char> {
    if c == '"' {
        seq!['\\', '"']
    } else if c == '\\' {
        seq!['\\', '\\']
    } else if c == '\x08' {
        seq!['\\', 'b']
    } else if c == '\x0C' {
        seq!['\\', 'f']
    } else if c == '\n' {
        seq!['\\', 'n']
    } else if c == '\r' {
        seq!['\\', 'r']
    } else if c == '\t' {
        seq!['\\', 't']
    } else if (c as nat) < 0x20 {
        seq!['\\', 'u', '0', '0', hex_digit((c as nat) / 16), hex_digit((c as nat) % 16)]
    } else {
        seq![c]
    }
}

/// The characters of a JSON string's content.
pub open spec fn json_escape(s: Seq<char>) -> Seq<char>
    decreases s.len(),
{
    if s.len() == 0 {
        seq![]
    } else {
        json_escape(s.drop_last()) + json_escape_char(s.last())
    }
}

/// A JSON string.
pub open spec fn json_string(s: Seq<char>) -> Seq<char> {
    seq!['"'] + json_escape(s) + seq!['"']
}

/// JSON strings separated by commas.
pub open spec fn json_items(items: Seq<Seq<char>>) -> Seq<char>
    decreases items.len(),
{
    if items.len() == 0 {
        seq![]
    } else if items.len() == 1 {
        json_string(items[0])
    } else {
        json_items(items.drop_last()) + seq![','] + json_string(items.last())
    }
}

/// The compact JSON text of a list of strings.
pub open spec fn json_list_text(items: Seq<Seq<char>>) -> Seq<char> {
    seq!['['] + json_items(items) + seq![']']
}

/// Writes a list of strings as a JSON array (`serde_json::to_string`), which
/// for strings cannot fail: `[`, the strings in JSON form separated by
/// commas, and `]`.
#[verifier::external_body]
fn write_json_list(items: &Vec<String>) -> (r: String)
    ensures
        r@ == json_list_text(strings_view(items@)),
{
    serde_json::to_string(items).unwrap_or_default()
}

/// The text a value is written as in a rich text property, where the JSON
/// text of a list is `list_json`.
pub open spec fn plain_text(v: MetaValueView, list_json: Seq<char>) -> Seq<char> {
    match v {
        MetaValueView::Null => "null"@,
        MetaValueView::Bool(b) => if b {
            "true"@
        } else {
            "false"@
        },
        MetaValueView::Int(n) => int_text(n),
        MetaValueView::Text(s) => s,
        MetaValueView::Float(s) => s,
        MetaValueView::List(_) => list_json,
    }
}

/// The key names a date property.
pub open spec fn is_date_key(k: Seq<char>) -> bool {
    contains(k, "created"@) || contains(k, "updated"@) || contains(k, "scheduled"@)
}

/// The key names a URL property.
pub open spec fn is_url_key(k: Seq<char>) -> bool {
    contains(k, "url"@) || k == "used_in_post"@
}

/// The key names a status property.
pub open spec fn is_status_key(k: Seq<char>) -> bool {
    k == "status"@ || k == "source"@
}

/// The property that the value `v` under `key` gives, where the JSON text of
/// a list is `list_json`: none for a null value; a date, URL or status for
/// a string under a key that names one; options for the list under `tags`;
/// else rich text.
pub open spec fn spec_property_from(key: Seq<char>, v: MetaValueView, list_json: Seq<char>) -> Option<
    PropertyView,
> {
    let k = lower(key);
    if v is Null {
        None
    } else if is_date_key(k) && str_value(v) is Some {
        Some(PropertyView::Date(str_value(v)->0))
    } else if is_url_key(k) && str_value(v) is Some {
        Some(PropertyView::Url(str_value(v)->0))
    } else if is_status_key(k) && str_value(v) is Some {
        Some(PropertyView::Status(str_value(v)->0))
    } else if k == "tags"@ && v is List {
        Some(PropertyView::MultiSelect(v->List_0))
    } else {
        Some(PropertyView::RichText(plain_text(v, list_json)))
    }
}

/// The JSON text of a value's list, where it is one.
pub open spec fn list_json_of(v: MetaValueView) -> Seq<char> {
    match v {
        MetaValueView::List(items) => json_list_text(items),
        _ => seq![],
    }
}

/// The property that the value `v` under `key` gives.
pub open spec fn spec_infer(key: Seq<char>, v: MetaValueView) -> Option<PropertyView> {
    spec_property_from(key, v, list_json_of(v))
}

/// The string held by a text value.
fn text_of(v: &MetaValue) -> (r: Option<String>)
    ensures
        r matches Some(s) ==> str_value(v@) == Some(s@),
        r is None ==> str_value(v@) is None,
{
    match v {
        MetaValue::Text(s) => Some(s.clone()),
        _ => None,
    }
}

/// The property that `value` under `key` gives, where the JSON text of a
/// list value is `list_json`.
pub fn property_from(key: &str, value: &MetaValue, list_json: &String) -> (r: Option<Property>)
    ensures
        r matches Some(p) ==> spec_property_from(key@, value@, list_json@) == Some(p@),
        r is None ==> spec_property_from(key@, value@, list_json@) is None,
{
    if let MetaValue::Null = value {
        return None;
    }
    let k = lower_chars(&to_chars(key));
    let w_created = to_chars("created");
    let w_updated = to_chars("updated");
    let w_scheduled = to_chars("scheduled");
    let w_url = to_chars("url");
    let date_key = contains_chars(&k, &w_created) || contains_chars(&k, &w_updated)
        || contains_chars(&k, &w_scheduled);
    let url_key = contains_chars(&k, &w_url) || eq_str(&k, "used_in_post");
    let status_key = eq_str(&k, "status") || eq_str(&k, "source");
    if let Some(s) = text_of(value) {
        if date_key {
            return Some(Property::Date(s));
        } else if url_key {
            return Some(Property::Url(s));
        } else if status_key {
            return Some(Property::Status(s));
        }
    }
    if eq_str(&k, "tags") {
        if let MetaValue::List(items) = value {
            return Some(Property::MultiSelect(items.clone()));
        }
    }
    let shown: String = match value {
        MetaValue::Null => from_chars(&to_chars("null")),
        MetaValue::Bool(b) => if *b {
            from_chars(&to_chars("true"))
        } else {
            from_chars(&to_chars("false"))
        },
        MetaValue::Int(n) => from_chars(&int_text_chars(*n)),
        MetaValue::Text(s) => s.clone(),
        MetaValue::Float(s) => s.clone(),
        MetaValue::List(_) => list_json.clone(),
    };
    Some(Property::RichText(shown))
}

/// The property that `value` under `key` gives.
pub fn infer_property(key: &str, value: &MetaValue) -> (r: Option<Property>)
    ensures
        r matches Some(p) ==> spec_infer(key@, value@) == Some(p@),
        r is None ==> spec_infer(key@, value@) is None,
{
    let list_json = match value {
        MetaValue::List(items) => write_json_list(items),
        _ => String::new(),
    };
    property_from(key, value, &list_json)
}


/// The text of the `Title` property: the note's `title` where that is a
/// string, else its file name.
pub open spec fn title_text(meta: Seq<Entry>, file_name: Seq<char>) -> Seq<char> {
    match key_pos(meta, "title"@) {
        Some(i) => match str_value(meta[i].1) {
            Some(s) => s,
            None => file_name,
        },
        None => file_name,
    }
}

/// The properties every page has: its title and its file name.
pub open spec fn base_properties(meta: Seq<Entry>, file_name: Seq<char>) -> Seq<
    (Seq<char>, PropertyView),
> {
    insert_entry(
        insert_entry(seq![], "Title"@, PropertyView::Title(title_text(meta, file_name))),
        "File_name"@,
        PropertyView::RichText(file_name),
    )
}

/// The entry with key `k` gives a property of its own: it is not `title`,
/// whose text is the page's title, and its property name is neither
/// `Title` nor `File_name`, which always hold the title and the file name.
pub open spec fn adds_property(k: Seq<char>) -> bool {
    k != "title"@ && spec_normalize(k) != "Title"@ && spec_normalize(k) != "File_name"@
}

/// The properties `acc` after the entries `meta[i..]` are added in order:
/// each entry that gives a property of its own puts it, if its value gives
/// one, under its key's property name.
pub open spec fn props_from(meta: Seq<Entry>, i: int, acc: Seq<(Seq<char>, PropertyView)>) -> Seq<
    (Seq<char>, PropertyView),
>
    decreases meta.len() - i,
{
    if i < 0 || i >= meta.len() {
        acc
    } else {
        let k = meta[i].0;
        let next = if !adds_property(k) {
            acc
        } else {
            match spec_infer(k, meta[i].1) {
                Some(p) => insert_entry(acc, spec_normalize(k), p),
                None => acc,
            }
        };
        props_from(meta, i + 1, next)
    }
}

/// The properties of a page for a note with front matter `meta` and file
/// name `file_name`.
pub open spec fn spec_build(meta: Seq<Entry>, file_name: Seq<char>) -> Seq<
    (Seq<char>, PropertyView),
> {
    props_from(meta, 0, base_properties(meta, file_name))
}

/// The properties of a page for a note with front matter `meta` and file
/// name `file_name`.
pub fn build_properties(meta: &KeyedMap<MetaValue>, file_name: &str) -> (r: KeyedMap<Property>)
    ensures
        r.seq() == spec_build(meta.seq(), file_name@),
{
    let title_key = from_chars(&to_chars("title"));
    let file_name_s = from_chars(&to_chars(file_name));
    let title_val: String = match meta.position(&title_key) {
        Some(i) => {
            let (_, v) = meta.entry(i);
            match text_of(v) {
                Some(s) => s,
                None => file_name_s.clone(),
            }
        },
        None => file_name_s.clone(),
    };
    let title_name = from_chars(&to_chars("Title"));
    let file_name_name = from_chars(&to_chars("File_name"));
    let mut props: KeyedMap<Property> = KeyedMap::new();
    props.insert(from_chars(&to_chars("Title")), Property::Title(title_val));
    props.insert(from_chars(&to_chars("File_name")), Property::RichText(file_name_s));
    let mut i: usize = 0;
    while i < meta.len()
        invariant
            i <= meta.seq().len(),
            title_key@ == "title"@,
            title_name@ == "Title"@,
            file_name_name@ == "File_name"@,
            spec_build(meta.seq(), file_name@) == props_from(meta.seq(), i as int, props.seq()),
        decreases meta.seq().len() - i,
    {
        let (k, v) = meta.entry(i);
        let ks = k.as_str();
        let name = normalize_key(ks);
        if *k != title_key && name != title_name && name != file_name_name {
            match infer_property(ks, v) {
                Some(p) => {
                    props.insert(name, p);
                },
                None => {},
            }
        }
        i = i + 1;
    }
    props
}

/// The block of one line of page text: `# `, `## ` and `### ` open
/// headings, any other line is a paragraph.
pub open spec fn line_block(line: Seq<char>) -> BlockView {
    if starts_with(line, seq!['#', '#', '#', ' ']) {
        BlockView { kind: BlockKind::Heading3, text: line.skip(4) }
    } else if starts_with(line, seq!['#', '#', ' ']) {
        BlockView { kind: BlockKind::Heading2, text: line.skip(3) }
    } else if starts_with(line, seq!['#', ' ']) {
        BlockView { kind: BlockKind::Heading1, text: line.skip(2) }
    } else {
        BlockView { kind: BlockKind::Paragraph, text: line }
    }
}

/// The blocks of a page text: one per line.
pub open spec fn spec_blocks(body: Seq<char>) -> Seq<BlockView> {
    lines(body).map_values(|l: Seq<char>| line_block(l))
}

/// The block of one line.
fn block_of(line: &[char]) -> (b: Block)
    ensures
        b@ == line_block(line@),
{
    let h3: Vec<char> = vec!['#', '#', '#', ' '];
    let h2: Vec<char> = vec!['#', '#', ' '];
    let h1: Vec<char> = vec!['#', ' '];
    assert(h3@ =~= seq!['#', '#', '#', ' ']);
    assert(h2@ =~= seq!['#', '#', ' ']);
    assert(h1@ =~= seq!['#', ' ']);
    if starts_with_chars(line, &h3) {
        let t = slice_chars(line, 4, line.len());
        assert(t@ =~= line@.skip(4));
        Block { kind: BlockKind::Heading3, text: from_chars(&t) }
    } else if starts_with_chars(line, &h2) {
        let t = slice_chars(line, 3, line.len());
        assert(t@ =~= line@.skip(3));
        Block { kind: BlockKind::Heading2, text: from_chars(&t) }
    } else if starts_with_chars(line, &h1) {
        let t = slice_chars(line, 2, line.len());
        assert(t@ =~= line@.skip(2));
        Block { kind: BlockKind::Heading1, text: from_chars(&t) }
    } else {
        Block { kind: BlockKind::Paragraph, text: from_chars(line) }
    }
}

/// The blocks of a page text.
pub fn body_to_blocks(body: &str) -> (r: Vec<Block>)
    ensures
        blocks_view(r@) == spec_blocks(body@),
{
    let rows = lines_of(&to_chars(body));
    let ghost ls = views(rows@);
    let mut r: Vec<Block> = Vec::new();
    let mut i: usize = 0;
    while i < rows.len()
        invariant
            i <= rows@.len(),
            ls == views(rows@),
            ls == lines(body@),
            blocks_view(r@) == ls.take(i as int).map_values(|l: Seq<char>| line_block(l)),
        decreases rows@.len() - i,
    {
        let b = block_of(&rows[i]);
        assert(ls[i as int] == rows@[i as int]@);
        let ghost prev = blocks_view(r@);
        r.push(b);
        assert(blocks_view(r@) =~= prev.push(b@));
        assert(ls.take(i + 1).map_values(|l: Seq<char>| line_block(l)) =~= ls.take(
            i as int,
        ).map_values(|l: Seq<char>| line_block(l)).push(line_block(ls[i as int])));
        i = i + 1;
    }
    assert(ls.take(rows@.len() as int) =~= ls);
    r
}


/// The HTTP method of a request.
#[derive(Debug, Clone, Copy, PartialEq, Eq, Structural)]
pub enum Method {
    Get,
    Post,
    Patch,
    Delete,
}

/// The JSON body of a request.
#[derive(Debug, PartialEq)]
pub enum Payload {
    /// No body.
    Empty,
    /// A query for the pages whose `File_name` equals the text.
    FindByFileName(String),
    /// A new page in a database, with its properties and blocks.
    NewPage { database_id: String, properties: KeyedMap<Property>, children: Vec<Block> },
    /// New values for a page's properties.
    Properties(KeyedMap<Property>),
    /// Blocks to append to a page.
    Children(Vec<Block>),
}

/// What a `Payload` holds.
pub enum PayloadView {
    Empty,
    FindByFileName(Seq<char>),
    NewPage {
        database_id: Seq<char>,
        properties: Seq<(Seq<char>, PropertyView)>,
        children: Seq<BlockView>,
    },
    Properties(Seq<(Seq<char>, PropertyView)>),
    Children(Seq<BlockView>),
}

impl View for Payload {
    type V = PayloadView;

    open spec fn view(&self) -> PayloadView {
        match self {
            Payload::Empty => PayloadView::Empty,
            Payload::FindByFileName(s) => PayloadView::FindByFileName(s@),
            Payload::NewPage { database_id, properties, children } => PayloadView::NewPage {
                database_id: database_id@,
                properties: properties.seq(),
                children: blocks_view(children@),
            },
            Payload::Properties(p) => PayloadView::Properties(p.seq()),
            Payload::Children(c) => PayloadView::Children(blocks_view(c@)),
        }
    }
}

/// A request to the Notion API.
#[derive(Debug, PartialEq)]
pub struct Request {
    pub method: Method,
    pub url: String,
    pub payload: Payload,
}

/// What a `Request` holds.
pub struct RequestView {
    pub method: Method,
    pub url: Seq<char>,
    pub payload: PayloadView,
}

impl View for Request {
    type V = RequestView;

    open spec fn view(&self) -> RequestView {
        RequestView { method: self.method, url: self.url@, payload: self.payload@ }
    }
}

/// What the tool reads from a reply of the Notion API.
#[derive(Debug, PartialEq)]
pub struct Reply {
    /// The reply has a `code` field: Notion refused the request.
    pub has_code: bool,
    /// The reply's `message`, where it is a string.
    pub message: Option<String>,
    /// The reply's `id`, where it is a string.
    pub id: Option<String>,
    /// Where the reply's `results` is an array: the `id` of each of its
    /// items, where that is a string.
    pub results: Option<Vec<Option<String>>>,
}

/// The views of a sequence of optional strings.
pub open spec fn opt_strings_view(v: Seq<Option<String>>) -> Seq<Option<Seq<char>>> {
    v.map_values(|o: Option<String>| opt_view(o))
}

/// The view of an optional string.
pub open spec fn opt_view(o: Option<String>) -> Option<Seq<char>> {
    match o {
        Some(s) => Some(s@),
        None => None,
    }
}

/// What a `Reply` holds.
pub struct ReplyView {
    pub has_code: bool,
    pub message: Option<Seq<char>>,
    pub id: Option<Seq<char>>,
    pub results: Option<Seq<Option<Seq<char>>>>,
}

impl View for Reply {
    type V = ReplyView;

    open spec fn view(&self) -> ReplyView {
        ReplyView {
            has_code: self.has_code,
            message: opt_view(self.message),
            id: opt_view(self.id),
            results: match self.results {
                Some(v) => Some(opt_strings_view(v@)),
                None => None,
            },
        }
    }
}

/// The address of the query endpoint of a database.
pub open spec fn query_url(db: Seq<char>) -> Seq<char> {
    "https://api.notion.com/v1/databases/"@ + db + "/query"@
}

/// The address where pages are created.
pub open spec fn pages_url() -> Seq<char> {
    "https://api.notion.com/v1/pages"@
}

/// The address of a page.
pub open spec fn page_url(id: Seq<char>) -> Seq<char> {
    "https://api.notion.com/v1/pages/"@ + id
}

/// The address of a page's blocks.
pub open spec fn children_url(id: Seq<char>) -> Seq<char> {
    "https://api.notion.com/v1/blocks/"@ + id + "/children"@
}

/// The address of a block.
pub open spec fn block_url(id: Seq<char>) -> Seq<char> {
    "https://api.notion.com/v1/blocks/"@ + id
}

/// The query for the pages of database `db` with file name `name`.
pub open spec fn query_request(db: Seq<char>, name: Seq<char>) -> RequestView {
    RequestView {
        method: Method::Post,
        url: query_url(db),
        payload: PayloadView::FindByFileName(name),
    }
}

/// The request that creates the page of a note in database `db`.
pub open spec fn create_request(
    db: Seq<char>,
    meta: Seq<Entry>,
    name: Seq<char>,
    body: Seq<char>,
) -> RequestView {
    RequestView {
        method: Method::Post,
        url: pages_url(),
        payload: PayloadView::NewPage {
            database_id: db,
            properties: spec_build(meta, name),
            children: spec_blocks(body),
        },
    }
}

/// The request that sets the properties of page `id` from a note.
pub open spec fn update_request(id: Seq<char>, meta: Seq<Entry>, name: Seq<char>) -> RequestView {
    RequestView {
        method: Method::Patch,
        url: page_url(id),
        payload: PayloadView::Properties(spec_build(meta, name)),
    }
}

/// The request that lists the blocks of page `id`.
pub open spec fn list_request(id: Seq<char>) -> RequestView {
    RequestView { method: Method::Get, url: children_url(id), payload: PayloadView::Empty }
}

/// The request that deletes block `id`.
pub open spec fn delete_request(id: Seq<char>) -> RequestView {
    RequestView { method: Method::Delete, url: block_url(id), payload: PayloadView::Empty }
}

/// The request that appends the blocks of a note's text to page `id`.
pub open spec fn append_request(id: Seq<char>, body: Seq<char>) -> RequestView {
    RequestView {
        method: Method::Patch,
        url: children_url(id),
        payload: PayloadView::Children(spec_blocks(body)),
    }
}

/// The page a query reply found: the `id` of its first result, where that
/// is a non-empty string.
pub open spec fn spec_found(r: ReplyView) -> Option<Seq<char>> {
    match r.results {
        Some(v) => if v.len() > 0 {
            match v[0] {
                Some(id) => if id.len() > 0 {
                    Some(id)
                } else {
                    None
                },
                None => None,
            }
        } else {
            None
        },
        None => None,
    }
}

/// The strings among `v`, in order.
pub open spec fn somes(v: Seq<Option<Seq<char>>>) -> Seq<Seq<char>>
    decreases v.len(),
{
    if v.len() == 0 {
        seq![]
    } else {
        match v.last() {
            Some(s) => somes(v.drop_last()).push(s),
            None => somes(v.drop_last()),
        }
    }
}

/// The blocks a listing reply names: the string ids among its results.
pub open spec fn spec_block_ids(r: ReplyView) -> Seq<Seq<char>> {
    match r.results {
        Some(v) => somes(v),
        None => seq![],
    }
}

/// The text of a refusal: the reply's message, else `unknown`.
pub open spec fn spec_refusal(r: ReplyView) -> Seq<char> {
    match r.message {
        Some(m) => m,
        None => "unknown"@,
    }
}

/// A string of the text `a` followed by `b`.
fn concat2(a: &str, b: &str) -> (r: String)
    ensures
        r@ == a@ + b@,
{
    let mut r = String::new();
    r.append(a);
    r.append(b);
    r
}

/// A string of the text `a` followed by `b` and `c`.
fn concat3(a: &str, b: &str, c: &str) -> (r: String)
    ensures
        r@ == a@ + b@ + c@,
{
    let mut r = String::new();
    r.append(a);
    r.append(b);
    r.append(c);
    r
}

/// The page a query reply found.
pub fn found_page_id(r: &Reply) -> (p: Option<String>)
    ensures
        opt_view(p) == spec_found(r@),
{
    match &r.results {
        Some(v) => {
            if v.len() > 0 {
                match &v[0] {
                    Some(id) => {
                        if !id.as_str().is_empty() {
                            Some(id.clone())
                        } else {
                            None
                        }
                    },
                    None => None,
                }
            } else {
                None
            }
        },
        None => None,
    }
}

/// The blocks a listing reply names, in order.
pub fn block_ids(r: &Reply) -> (ids: Vec<String>)
    ensures
        strings_view(ids@) == spec_block_ids(r@),
{
    let mut ids: Vec<String> = Vec::new();
    match &r.results {
        Some(v) => {
            let ghost all = opt_strings_view(v@);
            let mut i: usize = 0;
            while i < v.len()
                invariant
                    i <= v@.len(),
                    all == opt_strings_view(v@),
                    strings_view(ids@) == somes(all.take(i as int)),
                decreases v@.len() - i,
            {
                assert(all.take(i + 1).drop_last() =~= all.take(i as int));
                let ghost before = strings_view(ids@);
                match &v[i] {
                    Some(id) => {
                        ids.push(id.clone());
                        assert(strings_view(ids@) =~= before.push(id@));
                    },
                    None => {},
                }
                i = i + 1;
            }
            assert(all.take(v@.len() as int) =~= all);
        },
        None => {},
    }
    ids
}

/// The text of a refusal.
pub fn refusal(r: &Reply) -> (m: String)
    ensures
        m@ == spec_refusal(r@),
{
    match &r.message {
        Some(m) => m.clone(),
        None => from_chars(&to_chars("unknown")),
    }
}

impl NotionClient {
    /// The query for the pages whose `File_name` is `file_name`.
    pub fn find_by_filename(&self, file_name: &str) -> (r: Request)
        ensures
            r@ == query_request(self.database_view(), file_name@),
    {
        Request {
            method: Method::Post,
            url: concat3("https://api.notion.com/v1/databases/", self.database_id.as_str(), "/query"),
            payload: Payload::FindByFileName(from_chars(&to_chars(file_name))),
        }
    }

    /// The request that creates the page of a note.
    pub fn create_page(&self, note: &ParsedNote) -> (r: Request)
        ensures
            r@ == create_request(
                self.database_view(),
                note.meta.seq(),
                note.file_name@,
                note.body@,
            ),
    {
        let properties = build_properties(&note.meta, note.file_name.as_str());
        let children = body_to_blocks(note.body.as_str());
        Request {
            method: Method::Post,
            url: from_chars(&to_chars("https://api.notion.com/v1/pages")),
            payload: Payload::NewPage { database_id: self.database_id.clone(), properties, children },
        }
    }

    /// The request that sets the properties of page `page_id` from a note.
    pub fn update_page(&self, page_id: &str, note: &ParsedNote) -> (r: Request)
        ensures
            r@ == update_request(page_id@, note.meta.seq(), note.file_name@),
    {
        let properties = build_properties(&note.meta, note.file_name.as_str());
        Request {
            method: Method::Patch,
            url: concat2("https://api.notion.com/v1/pages/", page_id),
            payload: Payload::Properties(properties),
        }
    }

    /// The request that lists the blocks of page `page_id`: the first step
    /// of clearing them, which `block_ids` and `delete_block` complete.
    pub fn clear_blocks(&self, page_id: &str) -> (r: Request)
        ensures
            r@ == list_request(page_id@),
    {
        Request {
            method: Method::Get,
            url: concat3("https://api.notion.com/v1/blocks/", page_id, "/children"),
            payload: Payload::Empty,
        }
    }

    /// The request that deletes block `block_id`.
    pub fn delete_block(&self, block_id: &str) -> (r: Request)
        ensures
            r@ == delete_request(block_id@),
    {
        Request {
            method: Method::Delete,
            url: concat2("https://api.notion.com/v1/blocks/", block_id),
            payload: Payload::Empty,
        }
    }

    /// The request that appends the blocks of a note's text to page `page_id`.
    pub fn append_children(&self, page_id: &str, note: &ParsedNote) -> (r: Request)
        ensures
            r@ == append_request(page_id@, note.body@),
    {
        Request {
            method: Method::Patch,
            url: concat3("https://api.notion.com/v1/blocks/", page_id, "/children"),
            payload: Payload::Children(body_to_blocks(note.body.as_str())),
        }
    }
}

} // verus!

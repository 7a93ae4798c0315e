use vstd::prelude::*;
use vstd::string::StrSliceExecFns;
use vstd::string::StringExecFns;

verus! {

/// The identifier of a `Page`. A distinct type from `BlockID`, so that the two
/// cannot be mixed up.
#[derive(Debug, Clone, Eq, Hash)]
pub struct PageID(pub String);

impl PageID {
    #[must_use]
    pub fn new(id: String) -> (r: PageID)
        ensures
            r.0@ == id@,
    {
        PageID(id)
    }

    /// The identifier's text.
    pub fn as_str(&self) -> (r: &str)
        ensures
            r@ == self.0@,
    {
        self.0.as_str()
    }

    /// A copy of this identifier.
    pub fn duplicate(&self) -> (r: PageID)
        ensures
            r == *self,
    {
        PageID(self.0.clone())
    }
}

impl PartialEq for PageID {
    fn eq(&self, other: &PageID) -> (r: bool)
        ensures
            r == (self.0@ == other.0@),
    {
        self.0 == other.0
    }
}

impl vstd::std_specs::cmp::PartialEqSpecImpl for PageID {
    open spec fn obeys_eq_spec() -> bool {
        true
    }

    open spec fn eq_spec(&self, other: &PageID) -> bool {
        self.0@ == other.0@
    }
}

/// The identifier of a `Block`. A distinct type from `PageID`.
#[derive(Debug, Clone, Eq, Hash)]
pub struct BlockID(pub String);

impl BlockID {
    #[must_use]
    pub fn new(id: String) -> (r: BlockID)
        ensures
            r.0@ == id@,
    {
        BlockID(id)
    }

    /// The identifier's text.
    pub fn as_str(&self) -> (r: &str)
        ensures
            r@ == self.0@,
    {
        self.0.as_str()
    }

    /// A copy of this identifier.
    pub fn duplicate(&self) -> (r: BlockID)
        ensures
            r == *self,
    {
        BlockID(self.0.clone())
    }
}

impl PartialEq for BlockID {
    fn eq(&self, other: &BlockID) -> (r: bool)
        ensures
            r == (self.0@ == other.0@),
    {
        self.0 == other.0
    }
}

impl vstd::std_specs::cmp::PartialEqSpecImpl for BlockID {
    open spec fn obeys_eq_spec() -> bool {
        true
    }

    open spec fn eq_spec(&self, other: &BlockID) -> bool {
        self.0@ == other.0@
    }
}

/// An instant, as microseconds since the Unix epoch (UTC).
#[derive(Debug, Clone, Copy, PartialEq, Eq, Structural, Hash, PartialOrd, Ord)]
pub struct Timestamp {
    pub micros: i64,
}

impl Timestamp {
    pub fn from_micros(micros: i64) -> (r: Timestamp)
        ensures
            r.micros == micros,
    {
        Timestamp { micros }
    }

    /// The Unix epoch, which stands for a time the remote side did not give.
    pub fn epoch() -> (r: Timestamp)
        ensures
            r.micros == 0,
    {
        Timestamp { micros: 0 }
    }
}

/// Whether `c` is white space in the sense of Unicode's `White_Space` property,
/// which is what `char::is_whitespace` and `str::trim` go by.
pub open spec fn is_whitespace(c: char) -> bool {
    let n = c as u32;
    (9 <= n <= 13) || n == 32 || n == 0x85 || n == 0xA0 || n == 0x1680 || (0x2000 <= n
        <= 0x200A) || n == 0x2028 || n == 0x2029 || n == 0x202F || n == 0x205F || n == 0x3000
}

/// Whether `s` is empty once white space is trimmed from both ends.
pub open spec fn is_blank(s: Seq<char>) -> bool {
    forall|i: int| 0 <= i < s.len() ==> is_whitespace(#[trigger] s[i])
}

pub fn is_whitespace_char(c: char) -> (r: bool)
    ensures
        r == is_whitespace(c),
{
    let n = c as u32;
    (9 <= n && n <= 13) || n == 32 || n == 0x85 || n == 0xA0 || n == 0x1680 || (0x2000 <= n && n
        <= 0x200A) || n == 0x2028 || n == 0x2029 || n == 0x202F || n == 0x205F || n == 0x3000
}

/// Whether `s` holds nothing but white space.
pub fn text_is_blank(s: &str) -> (r: bool)
    ensures
        r == is_blank(s@),
{
    let n = s.unicode_len();
    let mut i: usize = 0;
    while i < n
        invariant
            n == s@.len(),
            i <= n,
            forall|j: int| 0 <= j < i ==> is_whitespace(#[trigger] s@[j]),
        decreases n - i,
    {
        if !is_whitespace_char(s.get_char(i)) {
            return false;
        }
        i = i + 1;
    }
    true
}

/// The structural kind of a block, as the remote side tags it.
#[derive(Debug, Clone, Copy, PartialEq, Eq, Structural, Hash)]
pub enum BlockKind {
    Unknown,
    Bookmark,
    Breadcrumb,
    BulletedListItem,
    Callout,
    ChildDatabase,
    ChildPage,
    Code,
    ColumnList,
    Column,
    Divider,
    Embed,
    Equation,
    File,
    Heading1,
    Heading2,
    Heading3,
    Image,
    LinkPreview,
    NumberedListItem,
    Paragraph,
    Pdf,
    Quote,
    SyncedBlock,
    Table,
    TableOfContents,
    TableRow,
    Template,
    ToDo,
    Toggle,
    Video,
    LinkToPage,
    MeetingNotes,
    Unsupported,
}

/// What the remote side names as the entity that contains a block. Kept for
/// lookup only; it is never followed.
#[derive(Debug, Clone, PartialEq, Eq, Hash)]
pub enum BlockParent {
    Unset,
    Database(String),
    Page(String),
    Workspace(bool),
    Block(String),
    DataSource(String),
}

/// The markdown prefix that a block of kind `k` is rendered with.
pub open spec fn markdown_prefix(k: BlockKind) -> Seq<char> {
    match k {
        BlockKind::Heading1 => "# "@,
        BlockKind::Heading2 => "## "@,
        BlockKind::Heading3 => "### "@,
        BlockKind::BulletedListItem => "- "@,
        BlockKind::NumberedListItem => "1. "@,
        BlockKind::ToDo => "- [ ] "@,
        BlockKind::Toggle => "> "@,
        _ => ""@,
    }
}

/// The text that one inline span contributes; a missing span contributes nothing.
pub open spec fn span_text(span: Option<String>) -> Seq<char> {
    match span {
        Some(s) => s@,
        None => Seq::empty(),
    }
}

/// `parts` joined with a single space between neighbours.
pub open spec fn join_spaced(parts: Seq<Seq<char>>) -> Seq<char>
    decreases parts.len(),
{
    if parts.len() == 0 {
        Seq::empty()
    } else if parts.len() == 1 {
        parts[0]
    } else {
        join_spaced(parts.drop_last()) + seq![' '] + parts.last()
    }
}

/// One node of the remote content graph.
///
/// Two blocks are the same node when their ids are equal, whatever their other
/// fields hold.
#[derive(Debug, Clone, Eq)]
pub struct Block {
    pub id: BlockID,
    pub page_id: PageID,
    pub block_type: BlockKind,
    pub text: String,
    pub creation_date: Timestamp,
    pub update_date: Timestamp,
    pub parent: Option<BlockParent>,
    pub has_children: bool,
}

impl Block {
    /// A block is empty when its text is blank.
    pub open spec fn spec_is_empty(&self) -> bool {
        is_blank(self.text@)
    }

    /// Builds a block from the fields of a remote record. The text is the
    /// record's inline spans joined with single spaces; what the record leaves
    /// out becomes an empty id, the epoch, or `false`.
    pub fn from_remote(
        id: Option<String>,
        page_id: PageID,
        block_type: BlockKind,
        spans: Vec<Option<String>>,
        creation_date: Option<Timestamp>,
        update_date: Option<Timestamp>,
        parent: Option<BlockParent>,
        has_children: Option<bool>,
    ) -> (r: Block)
        ensures
            r.id.0@ == span_text(id),
            r.page_id == page_id,
            r.block_type == block_type,
            r.text@ == join_spaced(spans@.map_values(|s: Option<String>| span_text(s))),
            r.creation_date.micros == (match creation_date {
                Some(t) => t.micros,
                None => 0,
            }),
            r.update_date.micros == (match update_date {
                Some(t) => t.micros,
                None => 0,
            }),
            r.parent == parent,
            r.has_children == (has_children == Some(true)),
    {
        let id_text = match id {
            Some(s) => s,
            None => String::new(),
        };
        let text = join_spans(&spans);
        Block {
            id: BlockID(id_text),
            page_id,
            block_type,
            text,
            creation_date: match creation_date {
                Some(t) => t,
                None => Timestamp::epoch(),
            },
            update_date: match update_date {
                Some(t) => t,
                None => Timestamp::epoch(),
            },
            parent,
            has_children: match has_children {
                Some(b) => b,
                None => false,
            },
        }
    }

    /// The block rendered as one line of markdown: a prefix that its kind
    /// decides, then its text.
    #[must_use]
    pub fn to_markdown(&self) -> (r: String)
        ensures
            r@ == markdown_prefix(self.block_type) + self.text@,
    {
        let prefix: &str = match self.block_type {
            BlockKind::Heading1 => "# ",
            BlockKind::Heading2 => "## ",
            BlockKind::Heading3 => "### ",
            BlockKind::BulletedListItem => "- ",
            BlockKind::NumberedListItem => "1. ",
            BlockKind::ToDo => "- [ ] ",
            BlockKind::Toggle => "> ",
            _ => "",
        };
        let out = String::from_str(prefix);
        out.concat(self.text.as_str())
    }

    /// Whether the block's text is blank.
    #[inline]
    #[must_use]
    pub fn is_empty(&self) -> (r: bool)
        ensures
            r == self.spec_is_empty(),
    {
        text_is_blank(self.text.as_str())
    }

    /// A copy of this block, field for field.
    pub fn duplicate(&self) -> (r: Block)
        ensures
            r == *self,
    {
        Block {
            id: self.id.duplicate(),
            page_id: self.page_id.duplicate(),
            block_type: self.block_type,
            text: self.text.clone(),
            creation_date: self.creation_date,
            update_date: self.update_date,
            parent: match &self.parent {
                Some(p) => Some(p.duplicate()),
                None => None,
            },
            has_children: self.has_children,
        }
    }
}

impl PartialEq for Block {
    /// Two blocks are the same node when their ids are equal.
    fn eq(&self, other: &Block) -> (r: bool)
        ensures
            r == (self.id.0@ == other.id.0@),
    {
        self.id == other.id
    }
}

impl vstd::std_specs::cmp::PartialEqSpecImpl for Block {
    open spec fn obeys_eq_spec() -> bool {
        true
    }

    open spec fn eq_spec(&self, other: &Block) -> bool {
        self.id.0@ == other.id.0@
    }
}

impl BlockParent {
    /// A copy of this reference.
    pub fn duplicate(&self) -> (r: BlockParent)
        ensures
            r == *self,
    {
        match self {
            BlockParent::Unset => BlockParent::Unset,
            BlockParent::Database(s) => BlockParent::Database(s.clone()),
            BlockParent::Page(s) => BlockParent::Page(s.clone()),
            BlockParent::Workspace(b) => BlockParent::Workspace(*b),
            BlockParent::Block(s) => BlockParent::Block(s.clone()),
            BlockParent::DataSource(s) => BlockParent::DataSource(s.clone()),
        }
    }
}

/// The inline spans of a block joined with single spaces.
pub fn join_spans(spans: &Vec<Option<String>>) -> (r: String)
    ensures
        r@ == join_spaced(spans@.map_values(|s: Option<String>| span_text(s))),
{
    let ghost parts = spans@.map_values(|s: Option<String>| span_text(s));
    let mut out = String::new();
    let mut i: usize = 0;
    while i < spans.len()
        invariant
            i <= spans@.len(),
            parts == spans@.map_values(|s: Option<String>| span_text(s)),
            out@ == join_spaced(parts.subrange(0, i as int)),
        decreases spans@.len() - i,
    {
        proof {
            let next = parts.subrange(0, i + 1);
            assert(next.drop_last() == parts.subrange(0, i as int));
            reveal_strlit(" ");
        }
        if i > 0 {
            out.append(" ");
        }
        match &spans[i] {
            Some(s) => out.append(s.as_str()),
            None => {},
        }
        i = i + 1;
    }
    assert(parts.subrange(0, spans@.len() as int) == parts);
    out
}

/// The position of the last `c` in `s`, or -1 where there is none.
pub open spec fn last_index_of(s: Seq<char>, c: char) -> int
    decreases s.len(),
{
    if s.len() == 0 {
        -1
    } else if s.last() == c {
        s.len() - 1
    } else {
        last_index_of(s.drop_last(), c)
    }
}

pub proof fn lemma_last_index_of_bounds(s: Seq<char>, c: char)
    ensures
        -1 <= last_index_of(s, c) < s.len(),
        last_index_of(s, c) >= 0 ==> s[last_index_of(s, c)] == c,
        forall|j: int| last_index_of(s, c) < j < s.len() ==> s[j] != c,
    decreases s.len(),
{
    if s.len() > 0 && s.last() != c {
        lemma_last_index_of_bounds(s.drop_last(), c);
        assert forall|j: int| last_index_of(s, c) < j < s.len() implies s[j] != c by {
            if j < s.len() - 1 {
                assert(s.drop_last()[j] == s[j]);
            }
        }
    }
}

/// `s` with every hyphen replaced by a space.
pub open spec fn hyphens_to_spaces(s: Seq<char>) -> Seq<char> {
    s.map_values(|c: char| if c == '-' { ' ' } else { c })
}

/// The title given to a page that has no path segment in its URL.
pub open spec fn placeholder_title() -> Seq<char> {
    "Unknown Page Title"@
}

/// Whether `s` holds the scheme separator `://` at position `i`.
pub open spec fn scheme_separator_at(s: Seq<char>, i: int) -> bool {
    0 <= i && i + 3 <= s.len() && s[i] == ':' && s[i + 1] == '/' && s[i + 2] == '/'
}

/// The first position at or after `i` where `s` holds `://`, or -1.
pub open spec fn first_separator_from(s: Seq<char>, i: int) -> int
    decreases s.len() - i,
{
    if i < 0 || i + 3 > s.len() {
        -1
    } else if scheme_separator_at(s, i) {
        i
    } else {
        first_separator_from(s, i + 1)
    }
}

/// The first position at or after `i` where `s` holds `c`, or -1.
pub open spec fn first_index_from(s: Seq<char>, c: char, i: int) -> int
    decreases s.len() - i,
{
    if i < 0 || i >= s.len() {
        -1
    } else if s[i] == c {
        i
    } else {
        first_index_from(s, c, i + 1)
    }
}

pub proof fn lemma_first_index_from_found(s: Seq<char>, c: char, i: int)
    ensures
        first_index_from(s, c, i) >= 0 ==> i <= first_index_from(s, c, i) < s.len() && s[first_index_from(
            s,
            c,
            i,
        )] == c,
    decreases s.len() - i,
{
    if 0 <= i < s.len() && s[i] != c {
        lemma_first_index_from_found(s, c, i + 1);
    }
}

/// Where the host part of `url` starts: just after its first `://`, or at the
/// start when there is none.
pub open spec fn host_start(url: Seq<char>) -> int {
    let sep = first_separator_from(url, 0);
    if sep < 0 {
        0
    } else {
        sep + 3
    }
}

/// Whether `url` has a path segment: a `/` after its host part, with
/// something after that `/`.
pub open spec fn has_path_segment(url: Seq<char>) -> bool {
    let path = first_index_from(url, '/', host_start(url));
    0 <= path && path + 1 < url.len()
}

/// A page's title, read off its URL: the last path segment, split on hyphens,
/// without its final piece (an id suffix), joined with spaces. A URL without a
/// path segment gets the placeholder.
pub open spec fn title_from_url(url: Seq<char>) -> Seq<char> {
    let slash = last_index_of(url, '/');
    if !has_path_segment(url) {
        placeholder_title()
    } else {
        let segment = url.subrange(slash + 1, url.len() as int);
        let dash = last_index_of(segment, '-');
        if dash < 0 {
            Seq::empty()
        } else {
            hyphens_to_spaces(segment.subrange(0, dash))
        }
    }
}

/// The position of the last `c` in `s[from..]`, or `None`.
fn find_last(s: &str, from: usize, c: char) -> (r: Option<usize>)
    requires
        from <= s@.len(),
    ensures
        ({
            let tail = s@.subrange(from as int, s@.len() as int);
            match r {
                Some(k) => from <= k < s@.len() && k - from == last_index_of(tail, c),
                None => last_index_of(tail, c) < 0,
            }
        }),
{
    let n = s.unicode_len();
    let mut found: Option<usize> = None;
    let mut i: usize = from;
    while i < n
        invariant
            n == s@.len(),
            from <= i <= n,
            match found {
                Some(k) => from <= k < i && k - from == last_index_of(
                    s@.subrange(from as int, i as int),
                    c,
                ),
                None => last_index_of(s@.subrange(from as int, i as int), c) < 0,
            },
        decreases n - i,
    {
        let ghost before = s@.subrange(from as int, i as int);
        if s.get_char(i) == c {
            found = Some(i);
        }
        i = i + 1;
        proof {
            let now = s@.subrange(from as int, i as int);
            assert(now.drop_last() =~= before);
        }
    }
    found
}

/// The first position at or after `from` where `s` holds `://`.
fn find_separator(s: &str, from: usize) -> (r: Option<usize>)
    ensures
        match r {
            Some(k) => k == first_separator_from(s@, from as int) && k + 3 <= s@.len(),
            None => first_separator_from(s@, from as int) < 0,
        },
{
    let n = s.unicode_len();
    let mut i: usize = from;
    while i < n && n - i >= 3
        invariant
            n == s@.len(),
            from <= i,
            first_separator_from(s@, from as int) == first_separator_from(s@, i as int),
        decreases n - i,
    {
        if s.get_char(i) == ':' && s.get_char(i + 1) == '/' && s.get_char(i + 2) == '/' {
            return Some(i);
        }
        i = i + 1;
    }
    None
}

/// The first position at or after `from` where `s` holds `c`.
fn find_first(s: &str, from: usize, c: char) -> (r: Option<usize>)
    ensures
        match r {
            Some(k) => k == first_index_from(s@, c, from as int) && k < s@.len(),
            None => first_index_from(s@, c, from as int) < 0,
        },
{
    let n = s.unicode_len();
    let mut i: usize = from;
    while i < n
        invariant
            n == s@.len(),
            from <= i,
            first_index_from(s@, c, from as int) == first_index_from(s@, c, i as int),
        decreases n - i,
    {
        if s.get_char(i) == c {
            return Some(i);
        }
        i = i + 1;
    }
    None
}

/// The title that `url` gives its page (see `title_from_url`).
pub fn title_of_url(url: &str) -> (r: String)
    ensures
        r@ == title_from_url(url@),
{
    let n = url.unicode_len();
    proof {
        assert(url@.subrange(0, n as int) =~= url@);
        lemma_last_index_of_bounds(url@, '/');
    }
    let host = match find_separator(url, 0) {
        Some(k) => k + 3,
        None => 0,
    };
    let has_path = match find_first(url, host, '/') {
        Some(p) => p + 1 < n,
        None => false,
    };
    if !has_path {
        return String::from_str("Unknown Page Title");
    }
    proof {
        lemma_first_index_from_found(url@, '/', host_start(url@));
    }
    let slash = match find_last(url, 0, '/') {
        Some(k) => k,
        None => {
            return String::from_str("Unknown Page Title");
        },
    };
    let start = slash + 1;
    let ghost segment = url@.subrange(start as int, n as int);
    let dash = match find_last(url, start, '-') {
        Some(k) => k,
        None => {
            return String::new();
        },
    };
    let mut out = String::new();
    let mut i: usize = start;
    while i < dash
        invariant
            n == url@.len(),
            start <= i <= dash < n,
            out@ == hyphens_to_spaces(url@.subrange(start as int, i as int)),
        decreases dash - i,
    {
        let ghost before = url@.subrange(start as int, i as int);
        proof {
            reveal_strlit(" ");
        }
        if url.get_char(i) == '-' {
            out.append(" ");
        } else {
            let piece = url.substring_char(i, i + 1);
            assert(piece@ =~= seq![url@[i as int]]);
            out.append(piece);
        }
        i = i + 1;
        assert(url@.subrange(start as int, i as int) =~= before.push(url@[i - 1]));
        assert(hyphens_to_spaces(url@.subrange(start as int, i as int)) =~= hyphens_to_spaces(
            before,
        ).push(if url@[i - 1] == '-' { ' ' } else { url@[i - 1] }));
    }
    assert(segment.subrange(0, dash - start) =~= url@.subrange(start as int, dash as int));
    out
}

/// A page as the workspace search lists it, before its children are fetched.
#[derive(Debug, Clone)]
pub struct PageRecord {
    pub id: String,
    pub url: String,
    pub created_time: Timestamp,
    pub last_edited_time: Timestamp,
}

/// A top-level container with its immediate child blocks.
#[derive(Debug, Clone)]
pub struct Page {
    pub id: PageID,
    pub title: String,
    pub url: String,
    pub creation_date: Timestamp,
    pub update_date: Timestamp,
    pub child_blocks: Vec<Block>,
}

impl PageRecord {
    /// A copy of this record, field for field.
    pub fn duplicate(&self) -> (r: PageRecord)
        ensures
            r == *self,
    {
        PageRecord {
            id: self.id.clone(),
            url: self.url.clone(),
            created_time: self.created_time,
            last_edited_time: self.last_edited_time,
        }
    }
}

impl Page {
    /// The page that `record` lists, holding `child_blocks`; its title is read
    /// off its URL.
    pub fn from_record(record: PageRecord, child_blocks: Vec<Block>) -> (r: Page)
        ensures
            r.id.0@ == record.id@,
            r.title@ == title_from_url(record.url@),
            r.url@ == record.url@,
            r.creation_date == record.created_time,
            r.update_date == record.last_edited_time,
            r.child_blocks@ == child_blocks@,
    {
        let title = title_of_url(record.url.as_str());
        Page {
            id: PageID::new(record.id),
            title,
            url: record.url,
            creation_date: record.created_time,
            update_date: record.last_edited_time,
            child_blocks,
        }
    }
}

} // verus!

//! Following a key path through a TOML document.
use vstd::prelude::*;
use crate::errors::{failed_at, prefixed, PathError, PathErrorView};
use crate::path::{PathSeg, SegView, ValuePath};
use crate::types::{toml_item_kind, toml_value_kind, TomlItem, TomlTable, TomlValue, TypeKind};

verus! {

/// Where a key path leads in a TOML document: a table entry, a value inside a value, or a
/// table of an array of tables.
#[derive(Debug)]
pub enum TomlAt<'a> {
    Item(&'a TomlItem),
    Value(&'a TomlValue),
    Table(&'a TomlTable),
}

/// The position reached while a key path is followed; the same three places as [`TomlAt`].
pub enum TomlCursor<'a> {
    Item(&'a TomlItem),
    Value(&'a TomlValue),
    Table(&'a TomlTable),
}

/// A place in a TOML document, as a plain value.
pub enum TomlPlace {
    Item(TomlItem),
    Value(TomlValue),
    Table(TomlTable),
}

impl<'a> View for TomlAt<'a> {
    type V = TomlPlace;

    open spec fn view(&self) -> TomlPlace {
        match self {
            TomlAt::Item(i) => TomlPlace::Item(**i),
            TomlAt::Value(v) => TomlPlace::Value(**v),
            TomlAt::Table(t) => TomlPlace::Table(**t),
        }
    }
}

impl<'a> View for TomlCursor<'a> {
    type V = TomlPlace;

    open spec fn view(&self) -> TomlPlace {
        match self {
            TomlCursor::Item(i) => TomlPlace::Item(**i),
            TomlCursor::Value(v) => TomlPlace::Value(**v),
            TomlCursor::Table(t) => TomlPlace::Table(**t),
        }
    }
}

/// The kind of what stands at a place; a table is an object.
pub open spec fn toml_place_kind(p: TomlPlace) -> TypeKind {
    match p {
        TomlPlace::Item(i) => toml_item_kind(i),
        TomlPlace::Value(v) => toml_value_kind(v),
        TomlPlace::Table(_) => TypeKind::Object,
    }
}

/// The item of the first entry of `entries` named `key`, unless that item is empty.
pub open spec fn table_entry(entries: Seq<(String, TomlItem)>, key: Seq<char>) -> Option<TomlItem>
    decreases entries.len(),
{
    if entries.len() == 0 {
        None
    } else if entries[0].0@ == key {
        match entries[0].1 {
            TomlItem::Empty => None,
            item => Some(item),
        }
    } else {
        table_entry(entries.drop_first(), key)
    }
}

/// The value of the first entry of an inline table named `key`, if any.
pub open spec fn inline_entry(entries: Seq<(String, TomlValue)>, key: Seq<char>) -> Option<TomlValue>
    decreases entries.len(),
{
    if entries.len() == 0 {
        None
    } else if entries[0].0@ == key {
        Some(entries[0].1)
    } else {
        inline_entry(entries.drop_first(), key)
    }
}

/// Follows a key in a value: only an inline table has keys.
pub open spec fn value_key_step(v: TomlValue, k: Seq<char>, prefix: Seq<SegView>) -> Result<TomlPlace, PathErrorView> {
    match v {
        TomlValue::InlineTable(entries) => match inline_entry(entries@, k) {
            Some(next) => Ok(TomlPlace::Value(next)),
            None => Err(PathErrorView::KeyNotFound { prefix, key: k }),
        },
        _ => Err(PathErrorView::NotAnObject { prefix, key: k, found: toml_value_kind(v) }),
    }
}

/// Follows a key in a table.
pub open spec fn table_key_step(t: TomlTable, k: Seq<char>, prefix: Seq<SegView>) -> Result<TomlPlace, PathErrorView> {
    match table_entry(t.entries@, k) {
        Some(next) => Ok(TomlPlace::Item(next)),
        None => Err(PathErrorView::KeyNotFound { prefix, key: k }),
    }
}

/// Follows an index in a value: only an array has elements.
pub open spec fn value_index_step(v: TomlValue, n: usize, prefix: Seq<SegView>) -> Result<TomlPlace, PathErrorView> {
    match v {
        TomlValue::Array(items) => if n < items@.len() {
            Ok(TomlPlace::Value(items@[n as int]))
        } else {
            Err(PathErrorView::IndexOutOfBounds { prefix, index: n, len: items@.len() as usize })
        },
        _ => Err(PathErrorView::NotAnArray { prefix, index: n, found: toml_value_kind(v) }),
    }
}

/// One step of a key path from a place.
pub open spec fn toml_step(cur: TomlPlace, seg: SegView, prefix: Seq<SegView>) -> Result<TomlPlace, PathErrorView> {
    match seg {
        SegView::Key(k) => match cur {
            TomlPlace::Item(TomlItem::Table(t)) => table_key_step(t, k, prefix),
            TomlPlace::Item(TomlItem::Value(v)) => value_key_step(v, k, prefix),
            TomlPlace::Value(v) => value_key_step(v, k, prefix),
            TomlPlace::Table(t) => table_key_step(t, k, prefix),
            TomlPlace::Item(item) => Err(PathErrorView::NotAnObject { prefix, key: k, found: toml_item_kind(item) }),
        },
        SegView::Index(n) => match cur {
            TomlPlace::Item(TomlItem::Value(v)) => value_index_step(v, n, prefix),
            TomlPlace::Value(v) => value_index_step(v, n, prefix),
            TomlPlace::Item(TomlItem::ArrayOfTables(tables)) => if n < tables@.len() {
                Ok(TomlPlace::Table(tables@[n as int]))
            } else {
                Err(PathErrorView::IndexOutOfBounds { prefix, index: n, len: tables@.len() as usize })
            },
            TomlPlace::Item(item) => Err(PathErrorView::NotAnArray { prefix, index: n, found: toml_item_kind(item) }),
            TomlPlace::Table(_) => Err(PathErrorView::NotAnArray { prefix, index: n, found: TypeKind::Object }),
        },
    }
}

/// Follows `path[i..]` from `cur`; errors name the part of `path` already followed.
pub open spec fn toml_walk(cur: TomlPlace, path: Seq<SegView>, i: int) -> Result<TomlPlace, PathErrorView>
    decreases path.len() - i,
{
    if i < 0 || i >= path.len() {
        Ok(cur)
    } else {
        match toml_step(cur, path[i], path.take(i)) {
            Ok(next) => toml_walk(next, path, i + 1),
            Err(e) => Err(e),
        }
    }
}

/// A place as it is handed out: a table entry that holds a value is that value.
pub open spec fn settled(p: TomlPlace) -> TomlPlace {
    match p {
        TomlPlace::Item(TomlItem::Value(v)) => TomlPlace::Value(v),
        _ => p,
    }
}

/// The place at `path` from the place `cur`, or why there is none.  The empty path names
/// no place.
pub open spec fn toml_lookup_from(cur: TomlPlace, path: Seq<SegView>) -> Result<TomlPlace, PathErrorView> {
    if path.len() == 0 {
        Err(PathErrorView::EmptyPath)
    } else {
        match toml_walk(cur, path, 0) {
            Ok(p) => Ok(settled(p)),
            Err(e) => Err(e),
        }
    }
}

/// The place at `path` from the item `doc`, or why there is none.
pub open spec fn toml_lookup(doc: TomlItem, path: Seq<SegView>) -> Result<TomlPlace, PathErrorView> {
    toml_lookup_from(TomlPlace::Item(doc), path)
}

impl<'a> TomlAt<'a> {
    /// The value here, if this place holds a value.
    pub fn as_value(&self) -> (res: Option<&'a TomlValue>)
        ensures
            match res {
                Some(v) => self@ == TomlPlace::Value(*v) || self@ == TomlPlace::Item(TomlItem::Value(*v)),
                None => !(self@ is Value) && !(self@ matches TomlPlace::Item(TomlItem::Value(_))),
            },
    {
        match self {
            TomlAt::Value(v) => Some(*v),
            TomlAt::Item(item) => match item {
                TomlItem::Value(v) => Some(v),
                _ => None,
            },
            TomlAt::Table(_) => None,
        }
    }

    /// The kind of what stands here.
    fn type_kind(&self) -> (res: TypeKind)
        ensures
            res == toml_place_kind(self@),
    {
        match self {
            TomlAt::Item(item) => TypeKind::from_toml_item(item),
            TomlAt::Value(val) => TypeKind::from_toml_value(val),
            TomlAt::Table(_) => TypeKind::Object,
        }
    }
}

impl<'a> TomlCursor<'a> {
    /// The kind of what stands here.
    pub fn type_kind(&self) -> (res: TypeKind)
        ensures
            res == toml_place_kind(self@),
    {
        match self {
            TomlCursor::Item(item) => TypeKind::from_toml_item(item),
            TomlCursor::Value(val) => TypeKind::from_toml_value(val),
            TomlCursor::Table(_) => TypeKind::Object,
        }
    }
}

fn table_get<'a>(t: &'a TomlTable, key: &String) -> (res: Option<&'a TomlItem>)
    ensures
        match res {
            Some(v) => table_entry(t.entries@, key@) == Some(*v),
            None => table_entry(t.entries@, key@) is None,
        },
{
    let entries = &t.entries;
    let n = entries.len();
    let mut j: usize = 0;
    assert(entries@.skip(0) =~= entries@);
    while j < n
        invariant
            j <= n == entries@.len(),
            *entries == t.entries,
            table_entry(entries@, key@) == table_entry(entries@.skip(j as int), key@),
        decreases n - j,
    {
        assert(entries@.skip(j as int).drop_first() =~= entries@.skip(j + 1));
        if entries[j].0 == *key {
            return match &entries[j].1 {
                TomlItem::Empty => None,
                item => Some(item),
            };
        }
        j += 1;
    }
    None
}

fn inline_get<'a>(entries: &'a Vec<(String, TomlValue)>, key: &String) -> (res: Option<&'a TomlValue>)
    ensures
        match res {
            Some(v) => inline_entry(entries@, key@) == Some(*v),
            None => inline_entry(entries@, key@) is None,
        },
{
    let n = entries.len();
    let mut j: usize = 0;
    assert(entries@.skip(0) =~= entries@);
    while j < n
        invariant
            j <= n == entries@.len(),
            inline_entry(entries@, key@) == inline_entry(entries@.skip(j as int), key@),
        decreases n - j,
    {
        assert(entries@.skip(j as int).drop_first() =~= entries@.skip(j + 1));
        if entries[j].0 == *key {
            return Some(&entries[j].1);
        }
        j += 1;
    }
    None
}

fn value_key<'a>(val: &'a TomlValue, key: &String, prefix: ValuePath) -> (res: Result<TomlCursor<'a>, PathError>)
    ensures
        match res {
            Ok(c) => value_key_step(*val, key@, prefix@) == Ok::<TomlPlace, PathErrorView>(c@),
            Err(e) => value_key_step(*val, key@, prefix@) == Err::<TomlPlace, PathErrorView>(e@),
        },
{
    if let TomlValue::InlineTable(itbl) = val {
        match inline_get(itbl, key) {
            Some(next) => Ok(TomlCursor::Value(next)),
            None => Err(PathError::key_not_found(prefix, key.clone())),
        }
    } else {
        Err(PathError::not_object(prefix, key.clone(), TypeKind::from_toml_value(val)))
    }
}

fn table_key<'a>(tbl: &'a TomlTable, key: &String, prefix: ValuePath) -> (res: Result<TomlCursor<'a>, PathError>)
    ensures
        match res {
            Ok(c) => table_key_step(*tbl, key@, prefix@) == Ok::<TomlPlace, PathErrorView>(c@),
            Err(e) => table_key_step(*tbl, key@, prefix@) == Err::<TomlPlace, PathErrorView>(e@),
        },
{
    match table_get(tbl, key) {
        Some(next) => Ok(TomlCursor::Item(next)),
        None => Err(PathError::key_not_found(prefix, key.clone())),
    }
}

fn value_index<'a>(val: &'a TomlValue, i: usize, prefix: ValuePath) -> (res: Result<TomlCursor<'a>, PathError>)
    ensures
        match res {
            Ok(c) => value_index_step(*val, i, prefix@) == Ok::<TomlPlace, PathErrorView>(c@),
            Err(e) => value_index_step(*val, i, prefix@) == Err::<TomlPlace, PathErrorView>(e@),
        },
{
    if let TomlValue::Array(arr) = val {
        let len = arr.len();
        if i < len {
            Ok(TomlCursor::Value(&arr[i]))
        } else {
            Err(PathError::oob(prefix, i, len))
        }
    } else {
        Err(PathError::not_array(prefix, i, TypeKind::from_toml_value(val)))
    }
}

/// One step of a key path from the cursor.
fn step<'a>(cursor: TomlCursor<'a>, seg: &PathSeg, prefix: ValuePath) -> (res: Result<TomlCursor<'a>, PathError>)
    ensures
        match res {
            Ok(c) => toml_step(cursor@, seg@, prefix@) == Ok::<TomlPlace, PathErrorView>(c@),
            Err(e) => toml_step(cursor@, seg@, prefix@) == Err::<TomlPlace, PathErrorView>(e@),
        },
{
    match seg {
        PathSeg::Key(k) => match cursor {
            TomlCursor::Item(TomlItem::Table(tbl)) => table_key(tbl, k, prefix),
            TomlCursor::Item(TomlItem::Value(val)) => value_key(val, k, prefix),
            TomlCursor::Value(val) => value_key(val, k, prefix),
            TomlCursor::Table(tbl) => table_key(tbl, k, prefix),
            TomlCursor::Item(item) => Err(PathError::not_object(prefix, k.clone(), TypeKind::from_toml_item(item))),
        },
        PathSeg::Index(i) => match cursor {
            TomlCursor::Item(TomlItem::Value(val)) => value_index(val, *i, prefix),
            TomlCursor::Value(val) => value_index(val, *i, prefix),
            TomlCursor::Item(TomlItem::ArrayOfTables(aot)) => {
                let len = aot.len();
                if *i < len {
                    Ok(TomlCursor::Table(&aot[*i]))
                } else {
                    Err(PathError::oob(prefix, *i, len))
                }
            },
            TomlCursor::Item(item) => Err(PathError::not_array(prefix, *i, TypeKind::from_toml_item(item))),
            TomlCursor::Table(_) => {
                let found = cursor.type_kind();
                Err(PathError::not_array(prefix, *i, found))
            },
        },
    }
}

/// The place at `path` from `document`.  Keys are followed in tables and inline tables,
/// indices in arrays and arrays of tables; a value found is handed out as a value, wherever
/// it stands.  The error names the path followed so far.
pub fn get_toml_at_path<'a>(document: &'a TomlItem, path: &ValuePath) -> (res: Result<TomlAt<'a>, PathError>)
    ensures
        match res {
            Ok(at) => toml_lookup(*document, path@) == Ok::<TomlPlace, PathErrorView>(at@),
            Err(e) => toml_lookup(*document, path@) == Err::<TomlPlace, PathErrorView>(e@),
        },
{
    if path.is_empty() {
        return Err(PathError::EmptyPath);
    }
    let mut cursor = TomlCursor::Item(document);
    let mut prefix = ValuePath::new();
    let n = path.0.len();
    let mut k: usize = 0;
    while k < n
        invariant
            k <= n == path.0@.len() == path@.len(),
            path@.len() > 0,
            prefix@ == path@.take(k as int),
            toml_walk(cursor@, path@, k as int) == toml_walk(TomlPlace::Item(*document), path@, 0),
        decreases n - k,
    {
        assert(path@[k as int] == path.0@[k as int]@);
        let seg = &path.0[k];
        cursor = step(cursor, seg, prefix.clone())?;
        match seg {
            PathSeg::Key(key) => prefix.push_key(key.clone()),
            PathSeg::Index(i) => {
                let _ = prefix.push_index(*i);
            },
        }
        assert(prefix@ =~= path@.take(k + 1));
        k += 1;
    }
    Ok(match cursor {
        TomlCursor::Item(TomlItem::Value(val)) => TomlAt::Value(val),
        TomlCursor::Item(item) => TomlAt::Item(item),
        TomlCursor::Value(val) => TomlAt::Value(val),
        TomlCursor::Table(tbl) => TomlAt::Table(tbl),
    })
}

} // verus!

verus! {

/// How many bytes UTF-8 takes for `c`.
pub open spec fn utf8_width(c: char) -> int {
    if (c as u32) < 0x80 {
        1
    } else if (c as u32) < 0x800 {
        2
    } else if (c as u32) < 0x10000 {
        3
    } else {
        4
    }
}

/// How many of the leading characters of `s` start before byte `offset`.
pub open spec fn chars_before_byte(s: Seq<char>, offset: int) -> nat
    decreases s.len(),
{
    if s.len() == 0 || offset <= 0 {
        0
    } else {
        1 + chars_before_byte(s.drop_first(), offset - utf8_width(s[0]))
    }
}

proof fn lemma_chars_before_byte_bound(s: Seq<char>, offset: int)
    ensures
        chars_before_byte(s, offset) <= s.len(),
    decreases s.len(),
{
    if s.len() > 0 && offset > 0 {
        lemma_chars_before_byte_bound(s.drop_first(), offset - utf8_width(s[0]));
    }
}

/// How many bytes UTF-8 takes for all of `s`.
pub open spec fn utf8_len(s: Seq<char>) -> int
    decreases s.len(),
{
    if s.len() == 0 {
        0
    } else {
        utf8_width(s[0]) + utf8_len(s.drop_first())
    }
}

/// The characters counted by `chars_before_byte(s, offset)` are exactly those whose first
/// byte lies before `offset`: the first `k` characters are all counted when the `k`-th of
/// them starts (after the bytes of the ones before it) before `offset`.
pub proof fn lemma_chars_before_byte_starts(s: Seq<char>, offset: int, k: int)
    requires
        0 < k <= s.len(),
    ensures
        k <= chars_before_byte(s, offset) <==> utf8_len(s.take(k - 1)) < offset,
    decreases s.len(),
{
    if offset > 0 {
        assert(s.take(k - 1).len() == 0 ==> utf8_len(s.take(k - 1)) == 0);
        if k > 1 {
            assert(s.take(k - 1).drop_first() =~= s.drop_first().take(k - 2));
            assert(s.take(k - 1)[0] == s[0]);
            lemma_chars_before_byte_starts(s.drop_first(), offset - utf8_width(s[0]), k - 1);
        }
    } else {
        lemma_utf8_len_nonneg(s.take(k - 1));
    }
}

proof fn lemma_utf8_len_nonneg(s: Seq<char>)
    ensures
        utf8_len(s) >= 0,
    decreases s.len(),
{
    if s.len() > 0 {
        lemma_utf8_len_nonneg(s.drop_first());
    }
}

fn utf8_width_exec(c: char) -> (res: usize)
    ensures
        res as int == utf8_width(c),
{
    if (c as u32) < 0x80 {
        1
    } else if (c as u32) < 0x800 {
        2
    } else if (c as u32) < 0x10000 {
        3
    } else {
        4
    }
}

/// The line and column, both counted from 1, of the character at byte `offset` of `src`;
/// past the end, of the end.
pub fn offset_to_line_col(src: &str, offset: usize) -> (res: (usize, usize))
    requires
        src@.len() < usize::MAX,
    ensures
        (res.0 as nat, res.1 as nat) == crate::text::line_col_after(
            src@.take(chars_before_byte(src@, offset as int) as int),
        ),
        ({
            let before = src@.take(chars_before_byte(src@, offset as int) as int);
            res.0 == 1 + crate::text::newline_count(before) && res.1 == before.len() - crate::text::last_newline(before)
        }),
{
    proof {
        crate::text::lemma_line_col_counts(src@.take(chars_before_byte(src@, offset as int) as int));
    }
    let chars = crate::text::chars_of(src);
    let n = chars.len();
    let mut line: usize = 1;
    let mut col: usize = 1;
    let mut left: usize = offset;
    let mut i: usize = 0;
    proof {
        assert(src@.skip(0) =~= src@);
        lemma_chars_before_byte_bound(src@, offset as int);
    }
    while i < n && left > 0
        invariant
            i <= n == chars@.len(),
            n < usize::MAX,
            chars@ == src@,
            chars_before_byte(src@, offset as int) == i + chars_before_byte(src@.skip(i as int), left as int),
            (line as nat, col as nat) == crate::text::line_col_after(src@.take(i as int)),
        decreases n - i,
    {
        proof {
            crate::text::lemma_line_col_bound(src@.take(i as int));
            assert(src@.skip(i as int).drop_first() =~= src@.skip(i + 1));
            assert(src@.take(i + 1).drop_last() =~= src@.take(i as int));
        }
        let w = utf8_width_exec(chars[i]);
        if chars[i] == '\n' {
            line += 1;
            col = 1;
        } else {
            col += 1;
        }
        let ghost old_left = left as int;
        assert(src@.skip(i as int)[0] == chars@[i as int]);
        assert(chars_before_byte(src@.skip(i as int), old_left) == 1 + chars_before_byte(src@.skip(i + 1), old_left - w));
        left = if w < left { left - w } else { 0 };
        assert(chars_before_byte(src@.skip(i + 1), old_left - w) == chars_before_byte(src@.skip(i + 1), left as int));
        i += 1;
    }
    proof {
        if i < n {
            assert(chars_before_byte(src@.skip(i as int), left as int) == 0);
        } else {
            assert(src@.skip(i as int).len() == 0);
        }
    }
    (line, col)
}

} // verus!

verus! {

proof fn lemma_toml_step_prefixed(cur: TomlPlace, seg: SegView, p: Seq<SegView>, pre: Seq<SegView>)
    ensures
        toml_step(cur, seg, p + pre) == match toml_step(cur, seg, pre) {
            Ok(x) => Ok(x),
            Err(e) => Err(prefixed(p, e)),
        },
{
}

proof fn lemma_toml_walk_suffix(cur: TomlPlace, p: Seq<SegView>, q: Seq<SegView>, j: int)
    requires
        0 <= j <= q.len(),
    ensures
        toml_walk(cur, p + q, p.len() + j) == match toml_walk(cur, q, j) {
            Ok(v) => Ok(v),
            Err(e) => Err(prefixed(p, e)),
        },
    decreases q.len() - j,
{
    if j < q.len() {
        let pq = p + q;
        assert(pq[p.len() + j] == q[j]);
        assert(pq.take(p.len() + j) =~= p + q.take(j));
        lemma_toml_step_prefixed(cur, q[j], p, q.take(j));
        if let Ok(next) = toml_step(cur, q[j], q.take(j)) {
            lemma_toml_walk_suffix(next, p, q, j + 1);
        }
    }
}

proof fn lemma_toml_walk_concat(cur: TomlPlace, p: Seq<SegView>, q: Seq<SegView>, i: int)
    requires
        0 <= i <= p.len(),
    ensures
        toml_walk(cur, p + q, i) == match toml_walk(cur, p, i) {
            Ok(u) => match toml_walk(u, q, 0) {
                Ok(v) => Ok(v),
                Err(e) => Err(prefixed(p, e)),
            },
            Err(e) => Err(e),
        },
    decreases p.len() - i,
{
    if i == p.len() {
        lemma_toml_walk_suffix(cur, p, q, 0);
    } else {
        let pq = p + q;
        assert(pq[i] == p[i]);
        assert(pq.take(i) =~= p.take(i));
        if let Ok(next) = toml_step(cur, p[i], p.take(i)) {
            lemma_toml_walk_concat(next, p, q, i + 1);
        }
    }
}

proof fn lemma_settled_walk(u: TomlPlace, q: Seq<SegView>)
    requires
        q.len() > 0,
    ensures
        toml_walk(settled(u), q, 0) == toml_walk(u, q, 0),
{
    assert(toml_step(settled(u), q[0], q.take(0)) == toml_step(u, q[0], q.take(0)));
}

/// Reading the path `p` followed by `q` is reading `p`, then reading `q` from the place
/// found; an error met on `q` names the whole path followed, `p` included.
pub proof fn lemma_toml_lookup_concat(doc: TomlItem, p: Seq<SegView>, q: Seq<SegView>)
    requires
        p.len() > 0,
        q.len() > 0,
    ensures
        toml_lookup(doc, p + q) == match toml_lookup(doc, p) {
            Ok(u) => match toml_lookup_from(u, q) {
                Ok(v) => Ok(v),
                Err(e) => Err(prefixed(p, e)),
            },
            Err(e) => Err(e),
        },
{
    lemma_toml_walk_concat(TomlPlace::Item(doc), p, q, 0);
    if let Ok(u) = toml_walk(TomlPlace::Item(doc), p, 0) {
        lemma_settled_walk(u, q);
    }
}

} // verus!

verus! {

proof fn lemma_toml_walk_fault(cur: TomlPlace, path: Seq<SegView>, i: int)
    requires
        0 <= i <= path.len(),
        toml_walk(cur, path, i) is Err,
    ensures
        toml_walk(cur, path, i) matches Err(e) && failed_at(e) matches Some((pre, seg)) && {
            &&& i <= pre.len() < path.len()
            &&& pre == path.take(pre.len() as int)
            &&& path[pre.len() as int] == seg
            &&& toml_walk(cur, pre, i) matches Ok(p) && toml_step(p, seg, pre) == Err::<TomlPlace, PathErrorView>(e)
        },
    decreases path.len() - i,
{
    if i < path.len() {
        if let Ok(next) = toml_step(cur, path[i], path.take(i)) {
            lemma_toml_walk_fault(next, path, i + 1);
            let e = toml_walk(next, path, i + 1)->Err_0;
            let (pre, seg) = failed_at(e)->Some_0;
            assert(pre[i] == path[i]);
            assert(pre.take(i) =~= path.take(i));
        }
    }
}

/// A failed read tells where it stopped.  The empty path is refused as such; otherwise the
/// error names a proper beginning of the path, the place there exists, the segment after
/// it is the one named, and the error is what that one step reports at that place.
pub proof fn lemma_toml_error_names_stop(doc: TomlItem, path: Seq<SegView>)
    requires
        toml_lookup(doc, path) is Err,
    ensures
        toml_lookup(doc, path) matches Err(e) && if path.len() == 0 {
            e == PathErrorView::EmptyPath
        } else {
            failed_at(e) matches Some((pre, seg)) && {
                &&& pre.len() < path.len()
                &&& pre == path.take(pre.len() as int)
                &&& path[pre.len() as int] == seg
                &&& toml_walk(TomlPlace::Item(doc), pre, 0) matches Ok(p) && toml_step(p, seg, pre)
                    == Err::<TomlPlace, PathErrorView>(e)
            }
        },
{
    if path.len() > 0 {
        lemma_toml_walk_fault(TomlPlace::Item(doc), path, 0);
    }
}

} // verus!

verus! {

/// The child of a place along one segment: the entry that a key names in a table or an
/// inline table, the element at an index of an array, or the table at an index of an array
/// of tables.
pub open spec fn toml_child(cur: TomlPlace, seg: SegView) -> Option<TomlPlace> {
    match seg {
        SegView::Key(k) => match cur {
            TomlPlace::Item(TomlItem::Table(t)) | TomlPlace::Table(t) => match table_entry(t.entries@, k) {
                Some(item) => Some(TomlPlace::Item(item)),
                None => None,
            },
            TomlPlace::Item(TomlItem::Value(TomlValue::InlineTable(entries)))
            | TomlPlace::Value(TomlValue::InlineTable(entries)) => match inline_entry(entries@, k) {
                Some(v) => Some(TomlPlace::Value(v)),
                None => None,
            },
            _ => None,
        },
        SegView::Index(n) => match cur {
            TomlPlace::Item(TomlItem::Value(TomlValue::Array(items)))
            | TomlPlace::Value(TomlValue::Array(items)) => if n < items@.len() {
                Some(TomlPlace::Value(items@[n as int]))
            } else {
                None
            },
            TomlPlace::Item(TomlItem::ArrayOfTables(tables)) => if n < tables@.len() {
                Some(TomlPlace::Table(tables@[n as int]))
            } else {
                None
            },
            _ => None,
        },
    }
}

/// The place reached from `cur` by taking, for each segment of `p` in turn, the child it
/// names; `None` when some child does not exist.
pub open spec fn toml_node(cur: TomlPlace, p: Seq<SegView>) -> Option<TomlPlace>
    decreases p.len(),
{
    if p.len() == 0 {
        Some(cur)
    } else {
        match toml_node(cur, p.drop_last()) {
            Some(c) => toml_child(c, p.last()),
            None => None,
        }
    }
}

proof fn lemma_toml_step_is_child(cur: TomlPlace, seg: SegView, pre: Seq<SegView>)
    ensures
        toml_step(cur, seg, pre) is Ok <==> toml_child(cur, seg) is Some,
        toml_step(cur, seg, pre) matches Ok(p) ==> toml_child(cur, seg) == Some(p),
{
}

proof fn lemma_toml_walk_is_node(cur: TomlPlace, p: Seq<SegView>)
    ensures
        toml_walk(cur, p, 0) is Ok <==> toml_node(cur, p) is Some,
        toml_walk(cur, p, 0) matches Ok(v) ==> toml_node(cur, p) == Some(v),
    decreases p.len(),
{
    if p.len() > 0 {
        let q = p.drop_last();
        let s = p.last();
        lemma_toml_walk_is_node(cur, q);
        lemma_toml_walk_concat(cur, q, seq![s], 0);
        assert(q + seq![s] =~= p);
        if let Ok(u) = toml_walk(cur, q, 0) {
            assert(seq![s].take(0) =~= Seq::<SegView>::empty());
            lemma_toml_step_is_child(u, s, Seq::<SegView>::empty());
            assert(toml_walk(u, seq![s], 0) == match toml_step(u, s, Seq::<SegView>::empty()) {
                Ok(next) => toml_walk(next, seq![s], 1),
                Err(e) => Err(e),
            });
        }
    }
}

proof fn lemma_toml_node_steps(cur: TomlPlace, p: Seq<SegView>)
    ensures
        toml_node(cur, p) is Some <==> forall|j: int| 0 <= j < p.len() ==> (#[trigger] toml_node(cur, p.take(j)) matches Some(c) && toml_child(c, p[j]) is Some),
    decreases p.len(),
{
    if p.len() > 0 {
        let q = p.drop_last();
        lemma_toml_node_steps(cur, q);
        assert forall|j: int| 0 <= j < q.len() implies #[trigger] p.take(j) == q.take(j) && p[j] == q[j] by {
            assert(p.take(j) =~= q.take(j));
        }
        assert(p.take(q.len() as int) =~= q);
        if toml_node(cur, p) is Some {
            assert forall|j: int| 0 <= j < p.len() implies (#[trigger] toml_node(cur, p.take(j)) matches Some(c) && toml_child(c, p[j]) is Some) by {
                if j < q.len() {
                    assert(p.take(j) == q.take(j));
                }
            }
        } else {
            if forall|j: int| 0 <= j < p.len() ==> (#[trigger] toml_node(cur, p.take(j)) matches Some(c) && toml_child(c, p[j]) is Some) {
                assert forall|j: int| 0 <= j < q.len() implies (#[trigger] toml_node(cur, q.take(j)) matches Some(c) && toml_child(c, q[j]) is Some) by {
                    assert(p.take(j) == q.take(j));
                    assert(toml_node(cur, p.take(j)) matches Some(c) && toml_child(c, p[j]) is Some);
                }
                assert(toml_node(cur, p.take(q.len() as int)) matches Some(c) && toml_child(c, p[q.len() as int]) is Some);
            }
        }
    }
}

/// A read of a non-empty path succeeds exactly when every step exists: for each segment,
/// the place reached so far is a table, inline table or table of an array of tables that
/// holds the key, or an array or array of tables longer than the index.  The place read is
/// the one reached by the last step, a value there handed out as a value.
pub proof fn lemma_toml_read_iff_steps_exist(doc: TomlItem, path: Seq<SegView>)
    ensures
        toml_lookup(doc, path) is Ok <==> path.len() > 0 && forall|j: int| 0 <= j < path.len() ==> (#[trigger] toml_node(TomlPlace::Item(doc), path.take(j)) matches Some(c) && toml_child(c, path[j]) is Some),
        toml_lookup(doc, path) matches Ok(v) ==> toml_node(TomlPlace::Item(doc), path) matches Some(n) && v == settled(n),
{
    lemma_toml_walk_is_node(TomlPlace::Item(doc), path);
    lemma_toml_node_steps(TomlPlace::Item(doc), path);
}

} // verus!

verus! {

proof fn lemma_table_entry_first(m: Seq<(String, TomlItem)>, k: Seq<char>, j: int)
    requires
        0 <= j < m.len(),
        m[j].0@ == k,
        !(m[j].1 is Empty),
        forall|i: int| 0 <= i < j ==> (#[trigger] m[i]).0@ != k,
    ensures
        table_entry(m, k) == Some(m[j].1),
    decreases j,
{
    if j > 0 {
        assert(m[0].0@ != k);
        let r = m.drop_first();
        assert forall|i: int| 0 <= i < j - 1 implies (#[trigger] r[i]).0@ != k by {
            assert(r[i] == m[i + 1]);
        }
        lemma_table_entry_first(r, k, j - 1);
    }
}

proof fn lemma_table_entry_none(m: Seq<(String, TomlItem)>, k: Seq<char>)
    requires
        forall|i: int| 0 <= i < m.len() && (#[trigger] m[i]).0@ == k ==> m[i].1 is Empty,
    ensures
        table_entry(m, k) is None,
    decreases m.len(),
{
    if m.len() > 0 {
        assert(m[0] == m[0]);
        let r = m.drop_first();
        assert forall|i: int| 0 <= i < r.len() && (#[trigger] r[i]).0@ == k implies r[i].1 is Empty by {
            assert(r[i] == m[i + 1]);
        }
        lemma_table_entry_none(r, k);
    }
}

proof fn lemma_inline_entry_first(m: Seq<(String, TomlValue)>, k: Seq<char>, j: int)
    requires
        0 <= j < m.len(),
        m[j].0@ == k,
        forall|i: int| 0 <= i < j ==> (#[trigger] m[i]).0@ != k,
    ensures
        inline_entry(m, k) == Some(m[j].1),
    decreases j,
{
    if j > 0 {
        assert(m[0].0@ != k);
        let r = m.drop_first();
        assert forall|i: int| 0 <= i < j - 1 implies (#[trigger] r[i]).0@ != k by {
            assert(r[i] == m[i + 1]);
        }
        lemma_inline_entry_first(r, k, j - 1);
    }
}

proof fn lemma_inline_entry_none(m: Seq<(String, TomlValue)>, k: Seq<char>)
    requires
        forall|i: int| 0 <= i < m.len() ==> (#[trigger] m[i]).0@ != k,
    ensures
        inline_entry(m, k) is None,
    decreases m.len(),
{
    if m.len() > 0 {
        assert(m[0].0@ != k);
        let r = m.drop_first();
        assert forall|i: int| 0 <= i < r.len() implies (#[trigger] r[i]).0@ != k by {
            assert(r[i] == m[i + 1]);
        }
        lemma_inline_entry_none(r, k);
    }
}

/// Reading `p` then one segment is one step from the place at `p`.
proof fn lemma_toml_one_more_step(doc: TomlItem, p: Seq<SegView>, c: TomlPlace, seg: SegView)
    requires
        toml_node(TomlPlace::Item(doc), p) == Some(c),
    ensures
        toml_lookup(doc, p.push(seg)) == match toml_step(c, seg, Seq::empty()) {
            Ok(next) => Ok(settled(next)),
            Err(e) => Err(prefixed(p, e)),
        },
{
    lemma_toml_walk_is_node(TomlPlace::Item(doc), p);
    lemma_toml_walk_concat(TomlPlace::Item(doc), p, seq![seg], 0);
    assert(p + seq![seg] =~= p.push(seg));
    assert(seq![seg].take(0) =~= Seq::<SegView>::empty());
    assert(toml_walk(c, seq![seg], 0) == match toml_step(c, seg, Seq::<SegView>::empty()) {
        Ok(next) => toml_walk(next, seq![seg], 1),
        Err(e) => Err(e),
    });
}

/// Following a key in a table gives the entry of that name, whatever it holds (a value of
/// any kind and content, `false` included); a value is handed out as that value.
pub proof fn lemma_toml_key_gives_table_entry(doc: TomlItem, p: Seq<SegView>, t: TomlTable, k: Seq<char>, j: int)
    requires
        toml_node(TomlPlace::Item(doc), p) == Some(TomlPlace::Item(TomlItem::Table(t)))
            || toml_node(TomlPlace::Item(doc), p) == Some(TomlPlace::Table(t)),
        0 <= j < t.entries@.len(),
        t.entries@[j].0@ == k,
        !(t.entries@[j].1 is Empty),
        forall|i: int| 0 <= i < j ==> (#[trigger] t.entries@[i]).0@ != k,
    ensures
        toml_lookup(doc, p.push(SegView::Key(k))) == Ok::<TomlPlace, PathErrorView>(settled(TomlPlace::Item(t.entries@[j].1))),
        t.entries@[j].1 matches TomlItem::Value(v) ==> toml_lookup(doc, p.push(SegView::Key(k)))
            == Ok::<TomlPlace, PathErrorView>(TomlPlace::Value(v)),
{
    lemma_table_entry_first(t.entries@, k, j);
    let c = toml_node(TomlPlace::Item(doc), p)->Some_0;
    lemma_toml_one_more_step(doc, p, c, SegView::Key(k));
}

/// A key is reported missing from a table exactly when it has no non-empty entry of that
/// name; the error names the path to the table.
pub proof fn lemma_toml_missing_table_key(doc: TomlItem, p: Seq<SegView>, t: TomlTable, k: Seq<char>)
    requires
        toml_node(TomlPlace::Item(doc), p) == Some(TomlPlace::Item(TomlItem::Table(t)))
            || toml_node(TomlPlace::Item(doc), p) == Some(TomlPlace::Table(t)),
        forall|i: int| 0 <= i < t.entries@.len() && (#[trigger] t.entries@[i]).0@ == k ==> t.entries@[i].1 is Empty,
    ensures
        toml_lookup(doc, p.push(SegView::Key(k))) == Err::<TomlPlace, PathErrorView>(
            PathErrorView::KeyNotFound { prefix: p, key: k },
        ),
{
    lemma_table_entry_none(t.entries@, k);
    let c = toml_node(TomlPlace::Item(doc), p)->Some_0;
    lemma_toml_one_more_step(doc, p, c, SegView::Key(k));
    assert(p + Seq::<SegView>::empty() =~= p);
}

/// Following a key in an inline table gives the value of the entry of that name, whatever
/// it is (`0` included).
pub proof fn lemma_toml_key_gives_inline_entry(
    doc: TomlItem,
    p: Seq<SegView>,
    entries: Vec<(String, TomlValue)>,
    k: Seq<char>,
    j: int,
)
    requires
        toml_node(TomlPlace::Item(doc), p) == Some(TomlPlace::Value(TomlValue::InlineTable(entries)))
            || toml_node(TomlPlace::Item(doc), p) == Some(TomlPlace::Item(TomlItem::Value(TomlValue::InlineTable(entries)))),
        0 <= j < entries@.len(),
        entries@[j].0@ == k,
        forall|i: int| 0 <= i < j ==> (#[trigger] entries@[i]).0@ != k,
    ensures
        toml_lookup(doc, p.push(SegView::Key(k))) == Ok::<TomlPlace, PathErrorView>(TomlPlace::Value(entries@[j].1)),
{
    lemma_inline_entry_first(entries@, k, j);
    let c = toml_node(TomlPlace::Item(doc), p)->Some_0;
    lemma_toml_one_more_step(doc, p, c, SegView::Key(k));
}

/// A key is reported missing from an inline table exactly when no entry has that name; the
/// error names the path to the inline table.
pub proof fn lemma_toml_missing_inline_key(doc: TomlItem, p: Seq<SegView>, entries: Vec<(String, TomlValue)>, k: Seq<char>)
    requires
        toml_node(TomlPlace::Item(doc), p) == Some(TomlPlace::Value(TomlValue::InlineTable(entries)))
            || toml_node(TomlPlace::Item(doc), p) == Some(TomlPlace::Item(TomlItem::Value(TomlValue::InlineTable(entries)))),
        forall|i: int| 0 <= i < entries@.len() ==> (#[trigger] entries@[i]).0@ != k,
    ensures
        toml_lookup(doc, p.push(SegView::Key(k))) == Err::<TomlPlace, PathErrorView>(
            PathErrorView::KeyNotFound { prefix: p, key: k },
        ),
{
    lemma_inline_entry_none(entries@, k);
    let c = toml_node(TomlPlace::Item(doc), p)->Some_0;
    lemma_toml_one_more_step(doc, p, c, SegView::Key(k));
    assert(p + Seq::<SegView>::empty() =~= p);
}

} // verus!

//! Following a key path through a JSON value.
use vstd::prelude::*;
use crate::errors::{failed_at, prefixed, PathError, PathErrorView};
use crate::path::{PathSeg, SegView, ValuePath};
use crate::types::{json_kind, JsonValue, TypeKind};

verus! {

/// The value of the first member of `members` named `key`, if any.
pub open spec fn json_member(members: Seq<(String, JsonValue)>, key: Seq<char>) -> Option<JsonValue>
    decreases members.len(),
{
    if members.len() == 0 {
        None
    } else if members[0].0@ == key {
        Some(members[0].1)
    } else {
        json_member(members.drop_first(), key)
    }
}

/// One step of a key path from `cur`: a key of an object, or an index of an array.  An
/// error names `prefix`, the path followed up to `cur`.
pub open spec fn json_step(cur: JsonValue, seg: SegView, prefix: Seq<SegView>) -> Result<JsonValue, PathErrorView> {
    match seg {
        SegView::Key(k) => match cur {
            JsonValue::Object(members) => match json_member(members@, k) {
                Some(next) => Ok(next),
                None => Err(PathErrorView::KeyNotFound { prefix, key: k }),
            },
            _ => Err(PathErrorView::NotAnObject { prefix, key: k, found: json_kind(cur) }),
        },
        SegView::Index(n) => match cur {
            JsonValue::Array(items) => if n < items@.len() {
                Ok(items@[n as int])
            } else {
                Err(PathErrorView::IndexOutOfBounds { prefix, index: n, len: items@.len() as usize })
            },
            _ => Err(PathErrorView::NotAnArray { prefix, index: n, found: json_kind(cur) }),
        },
    }
}

/// Follows `path[i..]` from `cur`; errors name the part of `path` already followed.
pub open spec fn json_walk(cur: JsonValue, path: Seq<SegView>, i: int) -> Result<JsonValue, PathErrorView>
    decreases path.len() - i,
{
    if i < 0 || i >= path.len() {
        Ok(cur)
    } else {
        match json_step(cur, path[i], path.take(i)) {
            Ok(next) => json_walk(next, path, i + 1),
            Err(e) => Err(e),
        }
    }
}

/// The value at `path` in `doc`, or why there is none.  The empty path names no value.
pub open spec fn json_lookup(doc: JsonValue, path: Seq<SegView>) -> Result<JsonValue, PathErrorView> {
    if path.len() == 0 {
        Err(PathErrorView::EmptyPath)
    } else {
        json_walk(doc, path, 0)
    }
}

fn member<'a>(members: &'a Vec<(String, JsonValue)>, key: &String) -> (res: Option<&'a JsonValue>)
    ensures
        match res {
            Some(v) => json_member(members@, key@) == Some(*v),
            None => json_member(members@, key@) is None,
        },
{
    let n = members.len();
    let mut j: usize = 0;
    assert(members@.skip(0) =~= members@);
    while j < n
        invariant
            j <= n == members@.len(),
            json_member(members@, key@) == json_member(members@.skip(j as int), key@),
        decreases n - j,
    {
        assert(members@.skip(j as int).drop_first() =~= members@.skip(j + 1));
        if members[j].0 == *key {
            return Some(&members[j].1);
        }
        j += 1;
    }
    assert(members@.skip(n as int).len() == 0);
    None
}

/// The value at `path` in `document`: each key must name a member of an object, each
/// index an element of an array.  The error names the path followed so far.
pub fn get_json_at_path<'a>(document: &'a JsonValue, path: &ValuePath) -> (res: Result<&'a JsonValue, PathError>)
    ensures
        match res {
            Ok(v) => json_lookup(*document, path@) == Ok::<JsonValue, PathErrorView>(*v),
            Err(e) => json_lookup(*document, path@) == Err::<JsonValue, PathErrorView>(e@),
        },
{
    if path.is_empty() {
        return Err(PathError::EmptyPath);
    }
    let mut cur = document;
    let mut prefix = ValuePath::new();
    let n = path.0.len();
    let mut k: usize = 0;
    while k < n
        invariant
            k <= n == path.0@.len() == path@.len(),
            path@.len() > 0,
            prefix@ == path@.take(k as int),
            json_walk(*cur, path@, k as int) == json_lookup(*document, path@),
        decreases n - k,
    {
        assert(path@[k as int] == path.0@[k as int]@);
        match &path.0[k] {
            PathSeg::Key(key) => {
                if let JsonValue::Object(members) = cur {
                    match member(members, key) {
                        Some(next) => {
                            cur = next;
                            prefix.push_key(key.clone());
                        },
                        None => return Err(PathError::key_not_found(prefix, key.clone())),
                    }
                } else {
                    return Err(PathError::not_object(prefix, key.clone(), TypeKind::from_json(cur)));
                }
            },
            PathSeg::Index(i) => {
                if let JsonValue::Array(items) = cur {
                    let len = items.len();
                    if *i < len {
                        cur = &items[*i];
                        prefix.push_index(*i);
                    } else {
                        return Err(PathError::oob(prefix, *i, len));
                    }
                } else {
                    return Err(PathError::not_array(prefix, *i, TypeKind::from_json(cur)));
                }
            },
        }
        assert(prefix@ =~= path@.take(k + 1));
        k += 1;
    }
    Ok(cur)
}

} // verus!

verus! {

proof fn lemma_json_step_prefixed(cur: JsonValue, seg: SegView, p: Seq<SegView>, pre: Seq<SegView>)
    ensures
        json_step(cur, seg, p + pre) == match json_step(cur, seg, pre) {
            Ok(x) => Ok(x),
            Err(e) => Err(prefixed(p, e)),
        },
{
}

proof fn lemma_json_walk_suffix(cur: JsonValue, p: Seq<SegView>, q: Seq<SegView>, j: int)
    requires
        0 <= j <= q.len(),
    ensures
        json_walk(cur, p + q, p.len() + j) == match json_walk(cur, q, j) {
            Ok(v) => Ok(v),
            Err(e) => Err(prefixed(p, e)),
        },
    decreases q.len() - j,
{
    if j < q.len() {
        let pq = p + q;
        assert(pq[p.len() + j] == q[j]);
        assert(pq.take(p.len() + j) =~= p + q.take(j));
        lemma_json_step_prefixed(cur, q[j], p, q.take(j));
        if let Ok(next) = json_step(cur, q[j], q.take(j)) {
            lemma_json_walk_suffix(next, p, q, j + 1);
        }
    }
}

proof fn lemma_json_walk_concat(cur: JsonValue, p: Seq<SegView>, q: Seq<SegView>, i: int)
    requires
        0 <= i <= p.len(),
    ensures
        json_walk(cur, p + q, i) == match json_walk(cur, p, i) {
            Ok(u) => match json_walk(u, q, 0) {
                Ok(v) => Ok(v),
                Err(e) => Err(prefixed(p, e)),
            },
            Err(e) => Err(e),
        },
    decreases p.len() - i,
{
    if i == p.len() {
        lemma_json_walk_suffix(cur, p, q, 0);
    } else {
        let pq = p + q;
        assert(pq[i] == p[i]);
        assert(pq.take(i) =~= p.take(i));
        if let Ok(next) = json_step(cur, p[i], p.take(i)) {
            lemma_json_walk_concat(next, p, q, i + 1);
        }
    }
}

/// Reading the path `p` followed by `q` is reading `p`, then reading `q` from the value
/// found; an error met on `q` names the whole path followed, `p` included.
pub proof fn lemma_json_lookup_concat(doc: JsonValue, p: Seq<SegView>, q: Seq<SegView>)
    requires
        p.len() > 0,
        q.len() > 0,
    ensures
        json_lookup(doc, p + q) == match json_lookup(doc, p) {
            Ok(u) => match json_lookup(u, q) {
                Ok(v) => Ok(v),
                Err(e) => Err(prefixed(p, e)),
            },
            Err(e) => Err(e),
        },
{
    lemma_json_walk_concat(doc, p, q, 0);
}

} // verus!

verus! {

proof fn lemma_json_walk_fault(cur: JsonValue, path: Seq<SegView>, i: int)
    requires
        0 <= i <= path.len(),
        json_walk(cur, path, i) is Err,
    ensures
        json_walk(cur, path, i) matches Err(e) && failed_at(e) matches Some((pre, seg)) && {
            &&& i <= pre.len() < path.len()
            &&& pre == path.take(pre.len() as int)
            &&& path[pre.len() as int] == seg
            &&& json_walk(cur, pre, i) matches Ok(v) && json_step(v, seg, pre) == Err::<JsonValue, PathErrorView>(e)
        },
    decreases path.len() - i,
{
    if i < path.len() {
        if let Ok(next) = json_step(cur, path[i], path.take(i)) {
            lemma_json_walk_fault(next, path, i + 1);
            let e = json_walk(next, path, i + 1)->Err_0;
            let (pre, seg) = failed_at(e)->Some_0;
            assert(pre[i] == path[i]);
            assert(pre.take(i) =~= path.take(i));
        }
    }
}

/// A failed read tells where it stopped.  The empty path is refused as such; otherwise the
/// error names a proper beginning of the path, the value there exists, the segment after it
/// is the one named, and the error is what that one step reports at that value.
pub proof fn lemma_json_error_names_stop(doc: JsonValue, path: Seq<SegView>)
    requires
        json_lookup(doc, path) is Err,
    ensures
        json_lookup(doc, path) matches Err(e) && if path.len() == 0 {
            e == PathErrorView::EmptyPath
        } else {
            failed_at(e) matches Some((pre, seg)) && {
                &&& pre.len() < path.len()
                &&& pre == path.take(pre.len() as int)
                &&& path[pre.len() as int] == seg
                &&& json_walk(doc, pre, 0) matches Ok(v) && json_step(v, seg, pre) == Err::<JsonValue, PathErrorView>(e)
            }
        },
{
    if path.len() > 0 {
        lemma_json_walk_fault(doc, path, 0);
    }
}

} // verus!

verus! {

/// The child of a JSON value along one segment: the member that a key names in an object,
/// or the element at an index of an array.
pub open spec fn json_child(v: JsonValue, seg: SegView) -> Option<JsonValue> {
    match seg {
        SegView::Key(k) => match v {
            JsonValue::Object(members) => json_member(members@, k),
            _ => None,
        },
        SegView::Index(n) => match v {
            JsonValue::Array(items) => if n < items@.len() {
                Some(items@[n as int])
            } else {
                None
            },
            _ => None,
        },
    }
}

/// The value reached from `doc` by taking, for each segment of `p` in turn, the child it
/// names; `None` when some child does not exist.
pub open spec fn json_node(doc: JsonValue, p: Seq<SegView>) -> Option<JsonValue>
    decreases p.len(),
{
    if p.len() == 0 {
        Some(doc)
    } else {
        match json_node(doc, p.drop_last()) {
            Some(v) => json_child(v, p.last()),
            None => None,
        }
    }
}

proof fn lemma_json_walk_is_node(doc: JsonValue, p: Seq<SegView>)
    ensures
        json_walk(doc, p, 0) is Ok <==> json_node(doc, p) is Some,
        json_walk(doc, p, 0) matches Ok(v) ==> json_node(doc, p) == Some(v),
    decreases p.len(),
{
    if p.len() > 0 {
        let q = p.drop_last();
        let s = p.last();
        lemma_json_walk_is_node(doc, q);
        lemma_json_walk_concat(doc, q, seq![s], 0);
        assert(q + seq![s] =~= p);
        if let Ok(u) = json_walk(doc, q, 0) {
            assert(seq![s].take(0) =~= Seq::<SegView>::empty());
            assert(json_walk(u, seq![s], 0) == match json_step(u, s, Seq::<SegView>::empty()) {
                Ok(next) => json_walk(next, seq![s], 1),
                Err(e) => Err(e),
            });
        }
    }
}

proof fn lemma_json_node_steps(doc: JsonValue, p: Seq<SegView>)
    ensures
        json_node(doc, p) is Some <==> forall|j: int| 0 <= j < p.len() ==> (#[trigger] json_node(doc, p.take(j)) matches Some(v) && json_child(v, p[j]) is Some),
    decreases p.len(),
{
    if p.len() > 0 {
        let q = p.drop_last();
        lemma_json_node_steps(doc, q);
        assert forall|j: int| 0 <= j < q.len() implies #[trigger] p.take(j) == q.take(j) && p[j] == q[j] by {
            assert(p.take(j) =~= q.take(j));
        }
        assert(p.take(q.len() as int) =~= q);
        if json_node(doc, p) is Some {
            assert forall|j: int| 0 <= j < p.len() implies (#[trigger] json_node(doc, p.take(j)) matches Some(v) && json_child(v, p[j]) is Some) by {
                if j < q.len() {
                    assert(p.take(j) == q.take(j));
                }
            }
        } else {
            if forall|j: int| 0 <= j < p.len() ==> (#[trigger] json_node(doc, p.take(j)) matches Some(v) && json_child(v, p[j]) is Some) {
                assert forall|j: int| 0 <= j < q.len() implies (#[trigger] json_node(doc, q.take(j)) matches Some(v) && json_child(v, q[j]) is Some) by {
                    assert(p.take(j) == q.take(j));
                    assert(json_node(doc, p.take(j)) matches Some(v) && json_child(v, p[j]) is Some);
                }
                assert(json_node(doc, p.take(q.len() as int)) matches Some(v) && json_child(v, p[q.len() as int]) is Some);
            }
        }
    }
}

/// A read of a non-empty path succeeds exactly when every step exists: for each segment,
/// the value reached so far is an object holding the key, or an array longer than the
/// index.  The value read is the one reached by the last step.
pub proof fn lemma_json_read_iff_steps_exist(doc: JsonValue, path: Seq<SegView>)
    ensures
        json_lookup(doc, path) is Ok <==> path.len() > 0 && forall|j: int| 0 <= j < path.len() ==> (#[trigger] json_node(doc, path.take(j)) matches Some(v) && json_child(v, path[j]) is Some),
        json_lookup(doc, path) matches Ok(v) ==> json_node(doc, path) == Some(v),
{
    lemma_json_walk_is_node(doc, path);
    lemma_json_node_steps(doc, path);
}

} // verus!

verus! {

proof fn lemma_json_member_first(m: Seq<(String, JsonValue)>, k: Seq<char>, j: int)
    requires
        0 <= j < m.len(),
        m[j].0@ == k,
        forall|i: int| 0 <= i < j ==> (#[trigger] m[i]).0@ != k,
    ensures
        json_member(m, k) == Some(m[j].1),
    decreases j,
{
    if j > 0 {
        assert(m[0].0@ != k);
        let r = m.drop_first();
        assert forall|i: int| 0 <= i < j - 1 implies (#[trigger] r[i]).0@ != k by {
            assert(r[i] == m[i + 1]);
        }
        lemma_json_member_first(r, k, j - 1);
    }
}

proof fn lemma_json_member_none(m: Seq<(String, JsonValue)>, k: Seq<char>)
    requires
        forall|i: int| 0 <= i < m.len() ==> (#[trigger] m[i]).0@ != k,
    ensures
        json_member(m, k) is None,
    decreases m.len(),
{
    if m.len() > 0 {
        assert(m[0].0@ != k);
        let r = m.drop_first();
        assert forall|i: int| 0 <= i < r.len() implies (#[trigger] r[i]).0@ != k by {
            assert(r[i] == m[i + 1]);
        }
        lemma_json_member_none(r, k);
    }
}

/// Reading `p` then one key is one step from the value at `p`.
proof fn lemma_json_one_more_step(doc: JsonValue, p: Seq<SegView>, v: JsonValue, seg: SegView)
    requires
        json_node(doc, p) == Some(v),
    ensures
        json_lookup(doc, p.push(seg)) == match json_step(v, seg, Seq::empty()) {
            Ok(next) => Ok(next),
            Err(e) => Err(prefixed(p, e)),
        },
{
    lemma_json_walk_is_node(doc, p);
    lemma_json_walk_concat(doc, p, seq![seg], 0);
    assert(p + seq![seg] =~= p.push(seg));
    assert(seq![seg].take(0) =~= Seq::<SegView>::empty());
    assert(json_walk(v, seq![seg], 0) == match json_step(v, seg, Seq::<SegView>::empty()) {
        Ok(next) => json_walk(next, seq![seg], 1),
        Err(e) => Err(e),
    });
}

/// Following a key in an object gives the value of the member with that name, whatever
/// that value is, null included.
pub proof fn lemma_json_key_gives_member(
    doc: JsonValue,
    p: Seq<SegView>,
    members: Vec<(String, JsonValue)>,
    k: Seq<char>,
    j: int,
)
    requires
        json_node(doc, p) == Some(JsonValue::Object(members)),
        0 <= j < members@.len(),
        members@[j].0@ == k,
        forall|i: int| 0 <= i < j ==> (#[trigger] members@[i]).0@ != k,
    ensures
        json_lookup(doc, p.push(SegView::Key(k))) == Ok::<JsonValue, PathErrorView>(members@[j].1),
{
    lemma_json_member_first(members@, k, j);
    lemma_json_one_more_step(doc, p, JsonValue::Object(members), SegView::Key(k));
}

/// A key is reported missing from an object exactly when no member has that name; the
/// error names the path to the object.
pub proof fn lemma_json_missing_key(doc: JsonValue, p: Seq<SegView>, members: Vec<(String, JsonValue)>, k: Seq<char>)
    requires
        json_node(doc, p) == Some(JsonValue::Object(members)),
        forall|i: int| 0 <= i < members@.len() ==> (#[trigger] members@[i]).0@ != k,
    ensures
        json_lookup(doc, p.push(SegView::Key(k))) == Err::<JsonValue, PathErrorView>(
            PathErrorView::KeyNotFound { prefix: p, key: k },
        ),
{
    lemma_json_member_none(members@, k);
    lemma_json_one_more_step(doc, p, JsonValue::Object(members), SegView::Key(k));
    assert(p + Seq::<SegView>::empty() =~= p);
}

} // verus!

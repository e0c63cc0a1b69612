//! The listing of a bucket: one page of object keys and common prefixes,
//! in ascending key order, after a start key and under a prefix.
use vstd::prelude::*;
use crate::meta_store::Object;

verus! {

/// `a` comes strictly before `b` in the lexicographic order of characters.
pub open spec fn lex_lt(a: Seq<char>, b: Seq<char>) -> bool
    decreases a.len(),
{
    if a.len() == 0 {
        b.len() > 0
    } else if b.len() == 0 {
        false
    } else if a[0] != b[0] {
        a[0] < b[0]
    } else {
        lex_lt(a.drop_first(), b.drop_first())
    }
}

pub open spec fn has_prefix(s: Seq<char>, p: Seq<char>) -> bool {
    p.len() <= s.len() && s.take(p.len() as int) == p
}

/// `d` occurs in `s` at position `j`.
pub open spec fn occurs_at(s: Seq<char>, d: Seq<char>, j: int) -> bool {
    0 <= j && j + d.len() <= s.len() && s.subrange(j, j + d.len()) == d
}

/// The first position at or after `from` where `d` occurs in `s`.
pub open spec fn first_occurrence(s: Seq<char>, d: Seq<char>, from: int) -> Option<int>
    decreases s.len() + 1 - from,
{
    if from < 0 || from + d.len() > s.len() {
        None
    } else if occurs_at(s, d, from) {
        Some(from)
    } else {
        first_occurrence(s, d, from + 1)
    }
}

/// The common prefix that `oid` falls under: `oid` up to and including the
/// first delimiter after the listing's prefix, if there is one.
pub open spec fn group_of(oid: Seq<char>, prefix: Seq<char>, delim: Seq<char>) -> Option<Seq<char>> {
    if delim.len() == 0 {
        None
    } else {
        match first_occurrence(oid, delim, prefix.len() as int) {
            Some(j) => Some(oid.take(j + delim.len())),
            None => None,
        }
    }
}

/// The key under which `oid` shows in a listing: its common prefix, or itself.
pub open spec fn entry_key(oid: Seq<char>, prefix: Seq<char>, delim: Seq<char>) -> Seq<char> {
    match group_of(oid, prefix, delim) {
        Some(g) => g,
        None => oid,
    }
}

/// A key that stands for a common prefix rather than an object.
pub open spec fn is_group_key(k: Seq<char>, prefix: Seq<char>, delim: Seq<char>) -> bool {
    group_of(k, prefix, delim) == Some(k)
}

/// An object that a listing of `bucket` looks at: under `prefix` and after `start_after`.
pub open spec fn selected(o: Object, bucket: Seq<char>, prefix: Seq<char>, start_after: Seq<char>) -> bool {
    o.bucket_name@ == bucket && has_prefix(o.oid@, prefix) && lex_lt(start_after, o.oid@)
}

/// `k` is the key of an entry of the listing.
pub open spec fn is_entry(
    objects: Seq<Object>,
    bucket: Seq<char>,
    prefix: Seq<char>,
    delim: Seq<char>,
    start_after: Seq<char>,
    k: Seq<char>,
) -> bool {
    exists|o: Object|
        #[trigger] objects.contains(o) && selected(o, bucket, prefix, start_after) && entry_key(
            o.oid@,
            prefix,
            delim,
        ) == k
}

pub open spec fn strictly_sorted(keys: Seq<Seq<char>>) -> bool {
    forall|i: int, j: int| 0 <= i < j < keys.len() ==> lex_lt(#[trigger] keys[i], #[trigger] keys[j])
}

/// `keys` is the page: the first `max_keys` entry keys in ascending order.
pub open spec fn is_page(
    keys: Seq<Seq<char>>,
    objects: Seq<Object>,
    bucket: Seq<char>,
    prefix: Seq<char>,
    delim: Seq<char>,
    start_after: Seq<char>,
    max_keys: nat,
) -> bool {
    &&& keys.len() <= max_keys
    &&& strictly_sorted(keys)
    &&& forall|i: int|
        0 <= i < keys.len() ==> is_entry(objects, bucket, prefix, delim, start_after, #[trigger] keys[i])
    &&& forall|k: Seq<char>|
        is_entry(objects, bucket, prefix, delim, start_after, k) && !keys.contains(k) ==> keys.len()
            == max_keys && (keys.len() > 0 ==> lex_lt(keys.last(), k))
}

pub proof fn lemma_lex_irreflexive(a: Seq<char>)
    ensures
        !lex_lt(a, a),
    decreases a.len(),
{
    if a.len() > 0 {
        lemma_lex_irreflexive(a.drop_first());
    }
}

pub proof fn lemma_lex_transitive(a: Seq<char>, b: Seq<char>, c: Seq<char>)
    requires
        lex_lt(a, b),
        lex_lt(b, c),
    ensures
        lex_lt(a, c),
    decreases a.len(),
{
    if a.len() > 0 && b.len() > 0 && c.len() > 0 && a[0] == b[0] && b[0] == c[0] {
        lemma_lex_transitive(a.drop_first(), b.drop_first(), c.drop_first());
    }
}

pub proof fn lemma_lex_total(a: Seq<char>, b: Seq<char>)
    requires
        a != b,
    ensures
        lex_lt(a, b) || lex_lt(b, a),
    decreases a.len(),
{
    if a.len() > 0 && b.len() > 0 && a[0] == b[0] {
        if a.drop_first() == b.drop_first() {
            assert(a =~= seq![a[0]] + a.drop_first());
            assert(b =~= seq![b[0]] + b.drop_first());
        }
        lemma_lex_total(a.drop_first(), b.drop_first());
    } else if a.len() == 0 && b.len() == 0 {
        assert(a =~= b);
    }
}

pub proof fn lemma_lex_asymmetric(a: Seq<char>, b: Seq<char>)
    requires
        lex_lt(a, b),
    ensures
        !lex_lt(b, a),
{
    if lex_lt(b, a) {
        lemma_lex_transitive(a, b, a);
        lemma_lex_irreflexive(a);
    }
}

/// The characters of a string.
pub fn chars_of(s: &str) -> (r: Vec<char>)
    ensures
        r@ == s@,
{
    let n = s.unicode_len();
    let mut r: Vec<char> = Vec::new();
    let mut i: usize = 0;
    while i < n
        invariant
            n == s@.len(),
            i <= n,
            r@ == s@.take(i as int),
        decreases n - i,
    {
        r.push(s.get_char(i));
        i += 1;
        assert(r@ =~= s@.take(i as int));
    }
    assert(s@.take(n as int) =~= s@);
    r
}

/// Lexicographic comparison of character sequences.
pub fn lt(a: &Vec<char>, b: &Vec<char>) -> (r: bool)
    ensures
        r == lex_lt(a@, b@),
{
    let mut i: usize = 0;
    assert(a@.skip(0) =~= a@ && b@.skip(0) =~= b@);
    while i < a.len() && i < b.len()
        invariant
            i <= a@.len() && i <= b@.len(),
            lex_lt(a@, b@) == lex_lt(a@.skip(i as int), b@.skip(i as int)),
        decreases a@.len() - i,
    {
        if a[i] != b[i] {
            return a[i] < b[i];
        }
        assert(a@.skip(i as int).drop_first() =~= a@.skip(i + 1));
        assert(b@.skip(i as int).drop_first() =~= b@.skip(i + 1));
        i += 1;
    }
    i == a.len() && i < b.len()
}

fn starts_with(s: &Vec<char>, p: &Vec<char>) -> (r: bool)
    ensures
        r == has_prefix(s@, p@),
{
    if p.len() > s.len() {
        return false;
    }
    let mut i: usize = 0;
    while i < p.len()
        invariant
            p@.len() <= s@.len(),
            i <= p@.len(),
            forall|j: int| 0 <= j < i ==> s@[j] == p@[j],
        decreases p@.len() - i,
    {
        if s[i] != p[i] {
            assert(s@.take(p@.len() as int)[i as int] != p@[i as int]);
            return false;
        }
        i += 1;
    }
    assert(s@.take(p@.len() as int) =~= p@);
    true
}

fn occurs(s: &Vec<char>, d: &Vec<char>, j: usize) -> (r: bool)
    requires
        j + d@.len() <= s@.len(),
    ensures
        r == occurs_at(s@, d@, j as int),
{
    let mut i: usize = 0;
    let n = s.len();
    while i < d.len()
        invariant
            n == s@.len(),
            j + d@.len() <= s@.len(),
            i <= d@.len(),
            forall|k: int| 0 <= k < i ==> s@[j + k] == d@[k],
        decreases d@.len() - i,
    {
        assert(j + i < s@.len());
        if s[j + i] != d[i] {
            assert(s@.subrange(j as int, j + d@.len())[i as int] != d@[i as int]);
            return false;
        }
        i += 1;
    }
    assert(s@.subrange(j as int, j + d@.len()) =~= d@);
    true
}

fn find_from(s: &Vec<char>, d: &Vec<char>, from: usize) -> (r: Option<usize>)
    ensures
        match r {
            Some(j) => first_occurrence(s@, d@, from as int) == Some(j as int),
            None => first_occurrence(s@, d@, from as int) is None,
        },
{
    if d.len() == 0 {
        proof {
            if from <= s@.len() {
                assert(s@.subrange(from as int, from as int) =~= d@);
            }
        }
        return if from <= s.len() { Some(from) } else { None };
    }
    if from > s.len() {
        return None;
    }
    let mut j: usize = from;
    while d.len() <= s.len() - j
        invariant
            from <= j <= s@.len(),
            d@.len() > 0,
            first_occurrence(s@, d@, from as int) == first_occurrence(s@, d@, j as int),
        decreases s@.len() + 1 - j,
    {
        if occurs(s, d, j) {
            return Some(j);
        }
        j += 1;
    }
    None
}

/// Where the common prefix of `oid` ends, if it falls under one.
fn group_end(oid: &Vec<char>, prefix_len: usize, d: &Vec<char>) -> (r: Option<usize>)
    ensures
        match r {
            Some(e) => exists|j: int|
                first_occurrence(oid@, d@, prefix_len as int) == Some(j) && e == j + d@.len()
                    && d@.len() > 0,
            None => d@.len() == 0 || first_occurrence(oid@, d@, prefix_len as int) is None,
        },
        r matches Some(e) ==> e <= oid@.len(),
        forall|p: Seq<char>|
            p.len() == prefix_len ==> #[trigger] group_of(oid@, p, d@) == match r {
                Some(e) => Some(oid@.take(e as int)),
                None => None::<Seq<char>>,
            },
{
    if d.len() == 0 {
        return None;
    }
    match find_from(oid, d, prefix_len) {
        Some(j) => {
            let n = oid.len();
            assert(j + d@.len() <= oid@.len()) by {
                lemma_first_occurrence_in_range(oid@, d@, prefix_len as int);
            }
            Some(j + d.len())
        },
        None => None,
    }
}

proof fn lemma_first_occurrence_in_range(s: Seq<char>, d: Seq<char>, from: int)
    ensures
        first_occurrence(s, d, from) matches Some(j) ==> from <= j && occurs_at(s, d, j),
    decreases s.len() + 1 - from,
{
    if !(from < 0 || from + d.len() > s.len()) && !occurs_at(s, d, from) {
        lemma_first_occurrence_in_range(s, d, from + 1);
    }
}

/// One entry of a page: its key, the position of an object it comes from,
/// and, for a common prefix, where the prefix ends in that object's key.
pub struct PageRow {
    pub key: Vec<char>,
    pub index: usize,
    pub group_end: Option<usize>,
}

pub open spec fn page_keys(rows: Seq<PageRow>) -> Seq<Seq<char>> {
    rows.map_values(|p: PageRow| p.key@)
}

/// `r` is an entry of the listing drawn from object `r.index`.
pub open spec fn row_ok(
    r: PageRow,
    objects: Seq<Object>,
    bucket: Seq<char>,
    prefix: Seq<char>,
    delim: Seq<char>,
    start_after: Seq<char>,
) -> bool {
    let oid = objects[r.index as int].oid@;
    &&& r.index < objects.len()
    &&& selected(objects[r.index as int], bucket, prefix, start_after)
    &&& r.key@ == entry_key(oid, prefix, delim)
    &&& (r.group_end is Some <==> group_of(oid, prefix, delim) is Some)
    &&& (r.group_end matches Some(e) ==> e <= oid.len() && r.key@ == oid.take(e as int))
}

fn copy_chars(v: &Vec<char>) -> (r: Vec<char>)
    ensures
        r@ == v@,
{
    prefix_chars(v, v.len())
}

fn prefix_chars(v: &Vec<char>, e: usize) -> (r: Vec<char>)
    requires
        e <= v@.len(),
    ensures
        r@ == v@.take(e as int),
{
    let mut r: Vec<char> = Vec::new();
    let mut i: usize = 0;
    while i < e
        invariant
            e <= v@.len(),
            i <= e,
            r@ == v@.take(i as int),
        decreases e - i,
    {
        r.push(v[i]);
        i += 1;
        assert(r@ =~= v@.take(i as int));
    }
    r
}

fn copy_row(r: &PageRow) -> (c: PageRow)
    ensures
        c.key@ == r.key@,
        c.index == r.index,
        c.group_end == r.group_end,
{
    PageRow { key: copy_chars(&r.key), index: r.index, group_end: r.group_end }
}

/// The candidate entries: one for each object of the bucket under the
/// prefix and after the start key.
fn candidates(objects: &Vec<Object>, bucket: &str, prefix: &str, delim: &str, start_after: &str) -> (r: Vec<PageRow>)
    ensures
        forall|k: int| 0 <= k < r@.len() ==> row_ok(#[trigger] r@[k], objects@, bucket@, prefix@, delim@, start_after@),
        forall|j: int|
            0 <= j < objects@.len() && selected(#[trigger] objects@[j], bucket@, prefix@, start_after@) ==> exists|k: int|
                0 <= k < r@.len() && (#[trigger] r@[k]).index == j,
{
    let b = bucket.to_owned();
    let pc = chars_of(prefix);
    let dc = chars_of(delim);
    let sc = chars_of(start_after);
    let mut r: Vec<PageRow> = Vec::new();
    let mut i: usize = 0;
    while i < objects.len()
        invariant
            i <= objects@.len(),
            b@ == bucket@,
            pc@ == prefix@,
            dc@ == delim@,
            sc@ == start_after@,
            forall|k: int| 0 <= k < r@.len() ==> row_ok(#[trigger] r@[k], objects@, bucket@, prefix@, delim@, start_after@),
            forall|j: int|
                0 <= j < i && selected(#[trigger] objects@[j], bucket@, prefix@, start_after@) ==> exists|k: int|
                    0 <= k < r@.len() && (#[trigger] r@[k]).index == j,
        decreases objects@.len() - i,
    {
        let ghost before = r@;
        if objects[i].bucket_name == b {
            let oc = chars_of(objects[i].oid.as_str());
            if starts_with(&oc, &pc) && lt(&sc, &oc) {
                let ge = group_end(&oc, pc.len(), &dc);
                let key = match ge {
                    Some(e) => prefix_chars(&oc, e),
                    None => oc,
                };
                let row = PageRow { key, index: i, group_end: ge };
                assert(row_ok(row, objects@, bucket@, prefix@, delim@, start_after@));
                r.push(row);
                assert(r@[before.len() as int].index == i);
            }
        }
        assert forall|k: int| 0 <= k < before.len() implies r@[k] == before[k] by {}
        i += 1;
    }
    r
}

/// One page of a listing: the first `max_keys` entry keys in ascending
/// order, each with the object it comes from.
pub fn list_page(objects: &Vec<Object>, bucket: &str, prefix: &str, delim: &str, start_after: &str, max_keys: usize) -> (r: Vec<PageRow>)
    ensures
        is_page(page_keys(r@), objects@, bucket@, prefix@, delim@, start_after@, max_keys as nat),
        forall|i: int| 0 <= i < r@.len() ==> row_ok(#[trigger] r@[i], objects@, bucket@, prefix@, delim@, start_after@),
{
    let cands = candidates(objects, bucket, prefix, delim, start_after);
    let mut out: Vec<PageRow> = Vec::new();
    let mut done = false;
    while out.len() < max_keys && !done
        invariant
            out@.len() <= max_keys,
            forall|k: int| 0 <= k < cands@.len() ==> row_ok(#[trigger] cands@[k], objects@, bucket@, prefix@, delim@, start_after@),
            forall|j: int|
                0 <= j < objects@.len() && selected(#[trigger] objects@[j], bucket@, prefix@, start_after@) ==> exists|k: int|
                    0 <= k < cands@.len() && (#[trigger] cands@[k]).index == j,
            forall|i: int| 0 <= i < out@.len() ==> row_ok(#[trigger] out@[i], objects@, bucket@, prefix@, delim@, start_after@),
            strictly_sorted(page_keys(out@)),
            // no entry below the last key is missing
            forall|k: int|
                0 <= k < cands@.len() && out@.len() > 0 && !lex_lt(out@.last().key@, (#[trigger] cands@[k]).key@)
                    ==> page_keys(out@).contains(cands@[k].key@),
            // when the selection stops early, every entry is on the page
            done ==> forall|k: int|
                0 <= k < cands@.len() ==> page_keys(out@).contains((#[trigger] cands@[k]).key@),
        decreases max_keys - out@.len(), if done { 0int } else { 1int },
    {
        let mut best: Option<usize> = None;
        let mut k: usize = 0;
        while k < cands.len()
            invariant
                k <= cands@.len(),
                best matches Some(bi) ==> bi < cands@.len() && (out@.len() == 0 || lex_lt(out@.last().key@, cands@[bi as int].key@)),
                best matches Some(bi) ==> forall|k2: int|
                    0 <= k2 < k && (out@.len() == 0 || lex_lt(out@.last().key@, (#[trigger] cands@[k2]).key@))
                        ==> !lex_lt(cands@[k2].key@, cands@[bi as int].key@),
                best is None ==> forall|k2: int|
                    0 <= k2 < k ==> !(out@.len() == 0 || lex_lt(out@.last().key@, (#[trigger] cands@[k2]).key@)),
            decreases cands@.len() - k,
        {
            let above = if out.len() == 0 {
                true
            } else {
                lt(&out[out.len() - 1].key, &cands[k].key)
            };
            if above {
                match best {
                    None => {
                        proof {
                            lemma_lex_irreflexive(cands@[k as int].key@);
                        }
                        best = Some(k);
                    },
                    Some(bi) => {
                        if lt(&cands[k].key, &cands[bi].key) {
                            proof {
                                assert forall|k2: int|
                                    0 <= k2 < k && (out@.len() == 0 || lex_lt(out@.last().key@, (#[trigger] cands@[k2]).key@))
                                        implies !lex_lt(cands@[k2].key@, cands@[k as int].key@) by {
                                    if lex_lt(cands@[k2].key@, cands@[k as int].key@) {
                                        lemma_lex_transitive(cands@[k2].key@, cands@[k as int].key@, cands@[bi as int].key@);
                                    }
                                }
                                lemma_lex_irreflexive(cands@[k as int].key@);
                            }
                            best = Some(k);
                        }
                    },
                }
            }
            k += 1;
        }
        match best {
            None => {
                proof {
                    assert forall|k2: int| 0 <= k2 < cands@.len() implies page_keys(out@).contains((#[trigger] cands@[k2]).key@) by {
                        if out@.len() > 0 {
                            assert(!lex_lt(out@.last().key@, cands@[k2].key@));
                        }
                    }
                }
                done = true;
            },
            Some(bi) => {
                let ghost old_out = out@;
                let row = copy_row(&cands[bi]);
                out.push(row);
                proof {
                    let bk = cands@[bi as int].key@;
                    assert(page_keys(out@) =~= page_keys(old_out).push(bk));
                    assert forall|i: int, j: int| 0 <= i < j < page_keys(out@).len() implies lex_lt(
                        #[trigger] page_keys(out@)[i],
                        #[trigger] page_keys(out@)[j],
                    ) by {
                        if j == old_out.len() {
                            assert(page_keys(out@)[j] == bk);
                            assert(lex_lt(old_out.last().key@, bk));
                            assert(page_keys(old_out)[old_out.len() - 1] == old_out.last().key@);
                            assert(page_keys(out@)[i] == page_keys(old_out)[i]);
                            if i < old_out.len() - 1 {
                                assert(lex_lt(page_keys(old_out)[i], page_keys(old_out)[old_out.len() - 1]));
                                lemma_lex_transitive(page_keys(old_out)[i], old_out.last().key@, bk);
                            }
                        } else {
                            assert(page_keys(out@)[i] == page_keys(old_out)[i]);
                            assert(page_keys(out@)[j] == page_keys(old_out)[j]);
                        }
                    }
                    assert forall|k2: int|
                        0 <= k2 < cands@.len() && out@.len() > 0 && !lex_lt(out@.last().key@, (#[trigger] cands@[k2]).key@)
                            implies page_keys(out@).contains(cands@[k2].key@) by {
                        let ck = cands@[k2].key@;
                        if old_out.len() > 0 && !lex_lt(old_out.last().key@, ck) {
                            assert(page_keys(old_out).contains(ck));
                            let w = choose|w: int| 0 <= w < page_keys(old_out).len() && page_keys(old_out)[w] == ck;
                            assert(page_keys(out@)[w] == ck);
                        } else {
                            assert(!lex_lt(ck, bk));
                            if ck != bk {
                                lemma_lex_total(ck, bk);
                            }
                            assert(page_keys(out@)[old_out.len() as int] == ck);
                        }
                    }
                }
            },
        }
    }
    proof {
        let keys = page_keys(out@);
        assert forall|i: int| 0 <= i < keys.len() implies is_entry(objects@, bucket@, prefix@, delim@, start_after@, #[trigger] keys[i]) by {
            assert(row_ok(out@[i], objects@, bucket@, prefix@, delim@, start_after@));
            let o = objects@[out@[i].index as int];
            assert(objects@.contains(o));
        }
        assert forall|key: Seq<char>|
            is_entry(objects@, bucket@, prefix@, delim@, start_after@, key) && !keys.contains(key) implies keys.len()
                == max_keys && (keys.len() > 0 ==> lex_lt(keys.last(), key)) by {
            let o = choose|o: Object|
                #[trigger] objects@.contains(o) && selected(o, bucket@, prefix@, start_after@) && entry_key(o.oid@, prefix@, delim@) == key;
            let j = choose|j: int| 0 <= j < objects@.len() && objects@[j] == o;
            assert(selected(objects@[j], bucket@, prefix@, start_after@));
            let k = choose|k: int| 0 <= k < cands@.len() && (#[trigger] cands@[k]).index == j;
            assert(row_ok(cands@[k], objects@, bucket@, prefix@, delim@, start_after@));
            assert(cands@[k].key@ == key);
            if done {
                assert(keys.contains(key));
            } else {
                assert(out@.len() == max_keys);
                if keys.len() > 0 {
                    assert(keys.last() == out@.last().key@);
                    if !lex_lt(out@.last().key@, cands@[k].key@) {
                        assert(keys.contains(key));
                    }
                }
            }
        }
    }
    out
}

proof fn lemma_first_occurrence_take(s: Seq<char>, d: Seq<char>, from: int, j: int)
    requires
        first_occurrence(s, d, from) == Some(j),
    ensures
        first_occurrence(s.take(j + d.len()), d, from) == Some(j),
    decreases j - from,
{
    lemma_first_occurrence_in_range(s, d, from);
    let t = s.take(j + d.len());
    if from == j {
        assert(t.subrange(j, j + d.len()) =~= s.subrange(j, j + d.len()));
    } else {
        assert(t.subrange(from, from + d.len()) =~= s.subrange(from, from + d.len()));
        lemma_first_occurrence_take(s, d, from + 1, j);
    }
}

/// A common prefix is its own common prefix.
pub proof fn lemma_group_key(oid: Seq<char>, prefix: Seq<char>, delim: Seq<char>)
    ensures
        group_of(oid, prefix, delim) matches Some(g) ==> is_group_key(g, prefix, delim),
        group_of(oid, prefix, delim) is None ==> !is_group_key(oid, prefix, delim),
{
    if let Some(g) = group_of(oid, prefix, delim) {
        let j = first_occurrence(oid, delim, prefix.len() as int)->0;
        lemma_first_occurrence_in_range(oid, delim, prefix.len() as int);
        lemma_first_occurrence_take(oid, delim, prefix.len() as int, j);
        assert(g.take(j + delim.len()) =~= g);
    }
}

} // verus!

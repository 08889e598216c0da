//! Query-string decoding: `&`-separated `key=value` pairs gathered by key.
use vstd::prelude::*;
use vstd::string::*;
use crate::text::{find_char, first_of, lemma_first_of, same_text};

verus! {

/// What one key of a query string maps to.
#[derive(Debug)]
pub enum Value<'a> {
    Single(&'a str),
    Multiple(Vec<&'a str>),
}

/// The mathematical value of a [`Value`].
pub enum ValueView {
    Single(Seq<char>),
    Multiple(Seq<Seq<char>>),
}

pub open spec fn texts_view<'a>(v: Seq<&'a str>) -> Seq<Seq<char>> {
    v.map_values(|x: &'a str| x@)
}

impl<'a> View for Value<'a> {
    type V = ValueView;

    open spec fn view(&self) -> ValueView {
        match self {
            Value::Single(s) => ValueView::Single(s@),
            Value::Multiple(v) => ValueView::Multiple(texts_view(v@)),
        }
    }
}

/// The key of a segment: the text before its first `=`, or all of it.
pub open spec fn key_of(seg: Seq<char>) -> Seq<char> {
    let k = first_of(seg, '=', 0);
    if k < seg.len() {
        seg.subrange(0, k)
    } else {
        seg
    }
}

/// The value of a segment: the text after its first `=`, or empty.
pub open spec fn value_of(seg: Seq<char>) -> Seq<char> {
    let k = first_of(seg, '=', 0);
    if k < seg.len() {
        seg.subrange(k + 1, seg.len() as int)
    } else {
        Seq::empty()
    }
}

/// The segments of `s` from index `start` on, split at each `c`.
pub open spec fn segments_from(s: Seq<char>, c: char, start: int) -> Seq<Seq<char>>
    decreases s.len() - start,
{
    let k = first_of(s, c, start);
    if 0 <= start <= k < s.len() {
        seq![s.subrange(start, k)] + segments_from(s, c, k + 1)
    } else {
        seq![s.subrange(start, s.len() as int)]
    }
}

/// `s` split at each `c`; an empty `s` gives one empty segment.
pub open spec fn split_on(s: Seq<char>, c: char) -> Seq<Seq<char>> {
    segments_from(s, c, 0)
}

/// One more occurrence of `key` with `value`: a new key holds `Single(value)`;
/// the second occurrence puts the new value before the old one; later ones
/// are appended.
pub open spec fn accumulate(
    m: Map<Seq<char>, ValueView>,
    key: Seq<char>,
    value: Seq<char>,
) -> Map<Seq<char>, ValueView> {
    if m.contains_key(key) {
        m.insert(
            key,
            match m[key] {
                ValueView::Single(p) => ValueView::Multiple(seq![value, p]),
                ValueView::Multiple(vs) => ValueView::Multiple(vs.push(value)),
            },
        )
    } else {
        m.insert(key, ValueView::Single(value))
    }
}

/// The parameters of a sequence of segments, taken in order.
pub open spec fn collect(segs: Seq<Seq<char>>) -> Map<Seq<char>, ValueView>
    decreases segs.len(),
{
    if segs.len() == 0 {
        Map::empty()
    } else {
        let last = segs.last();
        accumulate(collect(segs.drop_last()), key_of(last), value_of(last))
    }
}

/// The parameters that a query string denotes.
pub open spec fn decode_query(s: Seq<char>) -> Map<Seq<char>, ValueView> {
    collect(split_on(s, '&'))
}

pub open spec fn keys_unique<'a>(e: Seq<(&'a str, Value<'a>)>) -> bool {
    forall|i: int, j: int|
        0 <= i < e.len() && 0 <= j < e.len() && i != j ==> #[trigger] e[i].0@ != #[trigger] e[j].0@
}

pub open spec fn has_key<'a>(e: Seq<(&'a str, Value<'a>)>, k: Seq<char>) -> bool {
    exists|i: int| 0 <= i < e.len() && #[trigger] e[i].0@ == k
}

/// The map that a list of entries with distinct keys stands for.
pub open spec fn entries_map<'a>(e: Seq<(&'a str, Value<'a>)>) -> Map<Seq<char>, ValueView> {
    Map::new(
        |k: Seq<char>| has_key(e, k),
        |k: Seq<char>| e[choose|i: int| 0 <= i < e.len() && #[trigger] e[i].0@ == k].1@,
    )
}

proof fn lemma_entry_at<'a>(e: Seq<(&'a str, Value<'a>)>, i: int)
    requires
        keys_unique(e),
        0 <= i < e.len(),
    ensures
        entries_map(e).contains_key(e[i].0@),
        entries_map(e)[e[i].0@] == e[i].1@,
{
    let k = e[i].0@;
    assert(has_key(e, k));
    let j = choose|j: int| 0 <= j < e.len() && #[trigger] e[j].0@ == k;
    assert(i == j);
}

proof fn lemma_push_new<'a>(e: Seq<(&'a str, Value<'a>)>, x: (&'a str, Value<'a>))
    requires
        keys_unique(e),
        !has_key(e, x.0@),
    ensures
        keys_unique(e.push(x)),
        entries_map(e.push(x)) == entries_map(e).insert(x.0@, x.1@),
{
    let f = e.push(x);
    assert forall|i: int, j: int|
        0 <= i < f.len() && 0 <= j < f.len() && i != j implies #[trigger] f[i].0@ != #[trigger] f[j].0@ by {
        if i < e.len() && j < e.len() {
            assert(f[i] == e[i] && f[j] == e[j]);
        } else if i < e.len() {
            assert(f[i] == e[i]);
        } else {
            assert(f[j] == e[j]);
        }
    }
    let m = entries_map(e).insert(x.0@, x.1@);
    assert forall|k: Seq<char>| #[trigger] entries_map(f).contains_key(k) == m.contains_key(k) by {
        if has_key(f, k) {
            let i = choose|i: int| 0 <= i < f.len() && #[trigger] f[i].0@ == k;
            if i < e.len() {
                assert(f[i] == e[i]);
            }
        }
        if has_key(e, k) {
            let i = choose|i: int| 0 <= i < e.len() && #[trigger] e[i].0@ == k;
            assert(f[i] == e[i]);
        }
        if k == x.0@ {
            assert(f[e.len() as int] == x);
        }
    }
    assert forall|k: Seq<char>| #[trigger] entries_map(f).contains_key(k) implies entries_map(f)[k] == m[k] by {
        let i = choose|i: int| 0 <= i < f.len() && #[trigger] f[i].0@ == k;
        lemma_entry_at(f, i);
        if i < e.len() {
            assert(f[i] == e[i]);
            lemma_entry_at(e, i);
        }
    }
    assert(entries_map(f) =~= m);
}

proof fn lemma_update<'a>(e: Seq<(&'a str, Value<'a>)>, i: int, x: (&'a str, Value<'a>))
    requires
        keys_unique(e),
        0 <= i < e.len(),
        e[i].0@ == x.0@,
    ensures
        keys_unique(e.update(i, x)),
        entries_map(e.update(i, x)) == entries_map(e).insert(x.0@, x.1@),
{
    let f = e.update(i, x);
    assert forall|a: int, b: int|
        0 <= a < f.len() && 0 <= b < f.len() && a != b implies #[trigger] f[a].0@ != #[trigger] f[b].0@ by {
        assert(f[a].0@ == e[a].0@ && f[b].0@ == e[b].0@);
    }
    let m = entries_map(e).insert(x.0@, x.1@);
    assert forall|k: Seq<char>| #[trigger] entries_map(f).contains_key(k) == m.contains_key(k) by {
        if has_key(f, k) {
            let j = choose|j: int| 0 <= j < f.len() && #[trigger] f[j].0@ == k;
            assert(e[j].0@ == k);
        }
        if has_key(e, k) {
            let j = choose|j: int| 0 <= j < e.len() && #[trigger] e[j].0@ == k;
            assert(f[j].0@ == k);
        }
        if k == x.0@ {
            assert(f[i] == x);
        }
    }
    assert forall|k: Seq<char>| #[trigger] entries_map(f).contains_key(k) implies entries_map(f)[k] == m[k] by {
        let j = choose|j: int| 0 <= j < f.len() && #[trigger] f[j].0@ == k;
        lemma_entry_at(f, j);
        if j != i {
            lemma_entry_at(e, j);
        }
    }
    assert(entries_map(f) =~= m);
}

/// Adds one occurrence of `key` with `value` to a list of entries.
fn add_entry<'a>(entries: &mut Vec<(&'a str, Value<'a>)>, key: &'a str, value: &'a str)
    requires
        keys_unique(old(entries)@),
    ensures
        keys_unique(final(entries)@),
        entries_map(final(entries)@) == accumulate(entries_map(old(entries)@), key@, value@),
{
    let n = entries.len();
    let mut i: usize = 0;
    while i < n
        invariant
            n == entries@.len(),
            entries@ == old(entries)@,
            keys_unique(entries@),
            0 <= i <= n,
            forall|j: int| 0 <= j < i ==> #[trigger] entries@[j].0@ != key@,
        decreases n - i,
    {
        if same_text(entries[i].0, key) {
            proof {
                lemma_entry_at(entries@, i as int);
            }
            let (k, v) = entries.remove(i);
            let nv = match v {
                Value::Single(p) => {
                    let mut vs: Vec<&'a str> = Vec::new();
                    vs.push(value);
                    vs.push(p);
                    assert(texts_view(vs@) =~= seq![value@, p@]);
                    Value::Multiple(vs)
                },
                Value::Multiple(mut vs) => {
                    let ghost before = vs@;
                    vs.push(value);
                    assert(texts_view(vs@) =~= texts_view(before).push(value@));
                    Value::Multiple(vs)
                },
            };
            entries.insert(i, (k, nv));
            proof {
                assert(entries@ =~= old(entries)@.update(i as int, (k, nv)));
                lemma_update(old(entries)@, i as int, (k, nv));
            }
            return;
        }
        i = i + 1;
    }
    proof {
        if has_key(entries@, key@) {
            let j = choose|j: int| 0 <= j < entries@.len() && #[trigger] entries@[j].0@ == key@;
        }
        lemma_push_new(entries@, (key, Value::Single(value)));
    }
    entries.push((key, Value::Single(value)));
}

proof fn lemma_first_of_suffix(s: Seq<char>, c: char, m: int, j: int)
    requires
        0 <= m <= s.len(),
        0 <= j <= s.len() - m,
    ensures
        first_of(s, c, m + j) == m + first_of(s.subrange(m, s.len() as int), c, j),
    decreases s.len() - m - j,
{
    let t = s.subrange(m, s.len() as int);
    if j < t.len() && t[j] != c {
        lemma_first_of_suffix(s, c, m, j + 1);
    }
}

proof fn lemma_segments_suffix(s: Seq<char>, c: char, m: int, j: int)
    requires
        0 <= m <= s.len(),
        0 <= j <= s.len() - m,
    ensures
        segments_from(s, c, m + j) == segments_from(s.subrange(m, s.len() as int), c, j),
    decreases s.len() - m - j,
{
    let t = s.subrange(m, s.len() as int);
    lemma_first_of_suffix(s, c, m, j);
    lemma_first_of(t, c, j);
    let k = first_of(t, c, j);
    if k < t.len() {
        lemma_segments_suffix(s, c, m, k + 1);
        assert(s.subrange(m + j, m + k) =~= t.subrange(j, k));
    } else {
        assert(s.subrange(m + j, s.len() as int) =~= t.subrange(j, t.len() as int));
    }
}

proof fn lemma_first_of_at(s: Seq<char>, c: char, k: int)
    requires
        0 <= k <= s.len(),
        k < s.len() ==> s[k] == c,
        forall|j: int| 0 <= j < k ==> #[trigger] s[j] != c,
    ensures
        first_of(s, c, 0) == k,
{
    lemma_first_of(s, c, 0);
    let f = first_of(s, c, 0);
    if f < k {
        assert(s[f] == c);
    }
}

/// A segment free of `c` followed by `c` splits off as the first segment.
proof fn lemma_split_on_cons(seg: Seq<char>, c: char, rest: Seq<char>)
    requires
        forall|j: int| 0 <= j < seg.len() ==> #[trigger] seg[j] != c,
    ensures
        split_on(seg + seq![c] + rest, c) == seq![seg] + split_on(rest, c),
{
    let s = seg + seq![c] + rest;
    assert forall|j: int| 0 <= j < seg.len() implies #[trigger] s[j] != c by {
        assert(s[j] == seg[j]);
    }
    lemma_first_of_at(s, c, seg.len() as int);
    lemma_segments_suffix(s, c, seg.len() as int + 1, 0);
    assert(s.subrange(seg.len() as int + 1, s.len() as int) =~= rest);
    assert(s.subrange(0, seg.len() as int) =~= seg);
}

/// A text free of `c` is a single segment.
proof fn lemma_split_on_single(seg: Seq<char>, c: char)
    requires
        forall|j: int| 0 <= j < seg.len() ==> #[trigger] seg[j] != c,
    ensures
        split_on(seg, c) == seq![seg],
{
    lemma_first_of_at(seg, c, seg.len() as int);
    assert(seg.subrange(0, seg.len() as int) =~= seg);
}

/// The key and value of `key=value`, where the key holds no `=`.
proof fn lemma_pair(key: Seq<char>, value: Seq<char>)
    requires
        forall|j: int| 0 <= j < key.len() ==> #[trigger] key[j] != '=',
    ensures
        key_of(key + seq!['='] + value) == key,
        value_of(key + seq!['='] + value) == value,
{
    let s = key + seq!['='] + value;
    assert forall|j: int| 0 <= j < key.len() implies #[trigger] s[j] != '=' by {
        assert(s[j] == key[j]);
    }
    lemma_first_of_at(s, '=', key.len() as int);
    assert(s.subrange(0, key.len() as int) =~= key);
    assert(s.subrange(key.len() as int + 1, s.len() as int) =~= value);
}

/// A query string without `&` or `=` names one key, itself, with an empty
/// value.
pub proof fn lemma_bare_key(s: Seq<char>)
    requires
        forall|j: int| 0 <= j < s.len() ==> #[trigger] s[j] != '&' && s[j] != '=',
    ensures
        decode_query(s) == Map::<Seq<char>, ValueView>::empty().insert(
            s,
            ValueView::Single(Seq::empty()),
        ),
{
    lemma_split_on_single(s, '&');
    lemma_first_of_at(s, '=', s.len() as int);
    assert(key_of(s) == s);
    assert(value_of(s) == Seq::<char>::empty());
    let segs = seq![s];
    assert(segs.drop_last() =~= Seq::<Seq<char>>::empty());
    assert(collect(segs.drop_last()) == Map::<Seq<char>, ValueView>::empty());
    assert(collect(segs) == accumulate(Map::empty(), s, Seq::empty()));
}

/// A key given three times keeps its values as the second, the first, then
/// the third.
pub proof fn lemma_three_occurrences(k: Seq<char>, v1: Seq<char>, v2: Seq<char>, v3: Seq<char>)
    requires
        forall|j: int| 0 <= j < k.len() ==> #[trigger] k[j] != '&' && k[j] != '=',
        forall|j: int| 0 <= j < v1.len() ==> #[trigger] v1[j] != '&',
        forall|j: int| 0 <= j < v2.len() ==> #[trigger] v2[j] != '&',
        forall|j: int| 0 <= j < v3.len() ==> #[trigger] v3[j] != '&',
    ensures
        decode_query(
            k + seq!['='] + v1 + seq!['&'] + k + seq!['='] + v2 + seq!['&'] + k + seq!['='] + v3,
        )[k] == ValueView::Multiple(seq![v2, v1, v3]),
{
    let s1 = k + seq!['='] + v1;
    let s2 = k + seq!['='] + v2;
    let s3 = k + seq!['='] + v3;
    assert forall|j: int| 0 <= j < s1.len() implies #[trigger] s1[j] != '&' by {
        if j < k.len() {
            assert(s1[j] == k[j]);
        } else if j > k.len() {
            assert(s1[j] == v1[j - k.len() - 1]);
        }
    }
    assert forall|j: int| 0 <= j < s2.len() implies #[trigger] s2[j] != '&' by {
        if j < k.len() {
            assert(s2[j] == k[j]);
        } else if j > k.len() {
            assert(s2[j] == v2[j - k.len() - 1]);
        }
    }
    assert forall|j: int| 0 <= j < s3.len() implies #[trigger] s3[j] != '&' by {
        if j < k.len() {
            assert(s3[j] == k[j]);
        } else if j > k.len() {
            assert(s3[j] == v3[j - k.len() - 1]);
        }
    }
    let q = k + seq!['='] + v1 + seq!['&'] + k + seq!['='] + v2 + seq!['&'] + k + seq!['='] + v3;
    assert(q =~= s1 + seq!['&'] + (s2 + seq!['&'] + s3));
    lemma_split_on_cons(s1, '&', s2 + seq!['&'] + s3);
    lemma_split_on_cons(s2, '&', s3);
    lemma_split_on_single(s3, '&');
    let segs = seq![s1, s2, s3];
    assert(split_on(q, '&') =~= segs);
    lemma_pair(k, v1);
    lemma_pair(k, v2);
    lemma_pair(k, v3);
    assert(segs.drop_last() =~= seq![s1, s2]);
    assert(seq![s1, s2].drop_last() =~= seq![s1]);
    assert(seq![s1].drop_last() =~= Seq::<Seq<char>>::empty());
    let m0 = Map::<Seq<char>, ValueView>::empty();
    assert(collect(seq![s1].drop_last()) == m0);
    let m1 = accumulate(m0, k, v1);
    assert(collect(seq![s1]) == m1);
    assert(m1[k] == ValueView::Single(v1));
    let m2 = accumulate(m1, k, v2);
    assert(collect(seq![s1, s2]) == m2);
    assert(m2[k] == ValueView::Multiple(seq![v2, v1]));
    let m3 = accumulate(m2, k, v3);
    assert(collect(segs) == m3);
    assert(seq![v2, v1].push(v3) =~= seq![v2, v1, v3]);
}

/// The key and value of one segment, as views into it.
fn split_pair<'a>(seg: &'a str) -> (r: (&'a str, &'a str))
    ensures
        r.0@ == key_of(seg@),
        r.1@ == value_of(seg@),
{
    let n = seg.unicode_len();
    match find_char(seg, '=', 0) {
        Some(k) => (seg.substring_char(0, k), seg.substring_char(k + 1, n)),
        None => {
            let empty = seg.substring_char(n, n);
            assert(empty@ =~= Seq::<char>::empty());
            assert(seg@.subrange(0, n as int) =~= seg@);
            (seg.substring_char(0, n), empty)
        },
    }
}

/// The parameters of a query string: each distinct key with its value or
/// values, all borrowed from the decoded text.
#[derive(Debug)]
pub struct QueryString<'a> {
    data: Vec<(&'a str, Value<'a>)>,
}

impl<'a> View for QueryString<'a> {
    type V = Map<Seq<char>, ValueView>;

    closed spec fn view(&self) -> Map<Seq<char>, ValueView> {
        entries_map(self.data@)
    }
}

impl<'a> QueryString<'a> {
    #[verifier::type_invariant]
    closed spec fn inv(&self) -> bool {
        keys_unique(self.data@)
    }

    /// Decodes the text after the `?` of a request target.
    pub fn from(s: &'a str) -> (r: QueryString<'a>)
        ensures
            r@ == decode_query(s@),
    {
        let n = s.unicode_len();
        let mut entries: Vec<(&'a str, Value<'a>)> = Vec::new();
        let mut start: usize = 0;
        let ghost mut done: Seq<Seq<char>> = Seq::empty();
        proof {
            assert(done + segments_from(s@, '&', 0) =~= segments_from(s@, '&', 0));
        }
        loop
            invariant_except_break
                start <= n,
                split_on(s@, '&') == done + segments_from(s@, '&', start as int),
            invariant
                n == s@.len(),
                keys_unique(entries@),
                entries_map(entries@) == collect(done),
            ensures
                keys_unique(entries@),
                entries_map(entries@) == collect(split_on(s@, '&')),
            decreases n - start,
        {
            let found = find_char(s, '&', start);
            let end = match found {
                Some(k) => k,
                None => n,
            };
            proof {
                lemma_first_of(s@, '&', start as int);
            }
            let seg = s.substring_char(start, end);
            let (key, value) = split_pair(seg);
            add_entry(&mut entries, key, value);
            proof {
                let prev = done;
                done = done.push(seg@);
                assert(done.drop_last() =~= prev);
                if found is Some {
                    assert(done + segments_from(s@, '&', end + 1) =~= prev + segments_from(
                        s@,
                        '&',
                        start as int,
                    ));
                } else {
                    assert(done =~= prev + segments_from(s@, '&', start as int));
                    assert(split_on(s@, '&') == done);
                }
            }
            match found {
                Some(k) => {
                    start = k + 1;
                },
                None => {
                    break;
                },
            }
        }
        QueryString { data: entries }
    }

    /// The value that `key` maps to, if any.
    pub fn get(&self, key: &str) -> (r: Option<&Value<'a>>)
        ensures
            match r {
                Some(v) => self@.contains_key(key@) && v@ == self@[key@],
                None => !self@.contains_key(key@),
            },
    {
        proof {
            use_type_invariant(self);
        }
        let n = self.data.len();
        let mut i: usize = 0;
        while i < n
            invariant
                n == self.data@.len(),
                keys_unique(self.data@),
                0 <= i <= n,
                forall|j: int| 0 <= j < i ==> #[trigger] self.data@[j].0@ != key@,
            decreases n - i,
        {
            if same_text(self.data[i].0, key) {
                proof {
                    lemma_entry_at(self.data@, i as int);
                }
                return Some(&self.data[i].1);
            }
            i = i + 1;
        }
        proof {
            if has_key(self.data@, key@) {
                let j = choose|j: int| 0 <= j < self.data@.len() && #[trigger] self.data@[j].0@ == key@;
            }
        }
        None
    }
}

} // verus!

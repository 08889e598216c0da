//! Character searches and the request-line tokenizer.
use vstd::prelude::*;
use vstd::string::*;

verus! {

/// A character that ends a token of the request line.
pub open spec fn is_delimiter(c: char) -> bool {
    c == ' ' || c == '\r'
}

/// Index of the first delimiter of `s` at or after `i`, or `s.len()` if none.
pub open spec fn first_delimiter(s: Seq<char>, i: int) -> int
    decreases s.len() - i,
{
    if i >= s.len() {
        s.len() as int
    } else if is_delimiter(s[i]) {
        i
    } else {
        first_delimiter(s, i + 1)
    }
}

/// Index of the first `c` in `s` at or after `i`, or `s.len()` if none.
pub open spec fn first_of(s: Seq<char>, c: char, i: int) -> int
    decreases s.len() - i,
{
    if i >= s.len() {
        s.len() as int
    } else if s[i] == c {
        i
    } else {
        first_of(s, c, i + 1)
    }
}

/// The token before the first delimiter and the text after that delimiter;
/// `None` when `s` holds no delimiter.
pub open spec fn split_word(s: Seq<char>) -> Option<(Seq<char>, Seq<char>)> {
    let k = first_delimiter(s, 0);
    if k < s.len() {
        Some((s.subrange(0, k), s.subrange(k + 1, s.len() as int)))
    } else {
        None
    }
}

pub proof fn lemma_first_delimiter(s: Seq<char>, i: int)
    requires
        0 <= i <= s.len(),
    ensures
        i <= first_delimiter(s, i) <= s.len(),
        first_delimiter(s, i) < s.len() ==> is_delimiter(s[first_delimiter(s, i)]),
        forall|j: int| i <= j < first_delimiter(s, i) ==> !is_delimiter(#[trigger] s[j]),
    decreases s.len() - i,
{
    if i < s.len() && !is_delimiter(s[i]) {
        lemma_first_delimiter(s, i + 1);
    }
}

pub proof fn lemma_first_of(s: Seq<char>, c: char, i: int)
    requires
        0 <= i <= s.len(),
    ensures
        i <= first_of(s, c, i) <= s.len(),
        first_of(s, c, i) < s.len() ==> s[first_of(s, c, i)] == c,
        forall|j: int| i <= j < first_of(s, c, i) ==> #[trigger] s[j] != c,
    decreases s.len() - i,
{
    if i < s.len() && s[i] != c {
        lemma_first_of(s, c, i + 1);
    }
}

/// How many delimiters `s` holds.
pub open spec fn delimiter_count(s: Seq<char>) -> nat
    decreases s.len(),
{
    if s.len() == 0 {
        0
    } else {
        if is_delimiter(s.last()) {
            delimiter_count(s.drop_last()) + 1
        } else {
            delimiter_count(s.drop_last())
        }
    }
}

pub proof fn lemma_delimiter_count_concat(a: Seq<char>, b: Seq<char>)
    ensures
        delimiter_count(a + b) == delimiter_count(a) + delimiter_count(b),
    decreases b.len(),
{
    if b.len() == 0 {
        assert(a + b =~= a);
    } else {
        assert((a + b).drop_last() =~= a + b.drop_last());
        lemma_delimiter_count_concat(a, b.drop_last());
    }
}

pub proof fn lemma_no_delimiter_count(a: Seq<char>)
    requires
        forall|j: int| 0 <= j < a.len() ==> !is_delimiter(#[trigger] a[j]),
    ensures
        delimiter_count(a) == 0,
    decreases a.len(),
{
    if a.len() > 0 {
        lemma_no_delimiter_count(a.drop_last());
    }
}

/// A successful split consumes exactly one delimiter.
pub proof fn lemma_split_word_count(s: Seq<char>)
    requires
        split_word(s) is Some,
    ensures
        delimiter_count(s) == 1 + delimiter_count((split_word(s)->0).1),
{
    lemma_first_delimiter(s, 0);
    let k = first_delimiter(s, 0);
    let a = s.subrange(0, k);
    let r = s.subrange(k + 1, s.len() as int);
    assert(s =~= a + seq![s[k]] + r);
    lemma_no_delimiter_count(a);
    lemma_delimiter_count_concat(a + seq![s[k]], r);
    lemma_delimiter_count_concat(a, seq![s[k]]);
    let d = seq![s[k]];
    assert(d.drop_last() =~= Seq::<char>::empty());
    assert(delimiter_count(d.drop_last()) == 0);
    assert(delimiter_count(d) == 1);
}

/// A token free of delimiters, then a delimiter, splits off as that token.
pub proof fn lemma_split_word_of(a: Seq<char>, d: char, r: Seq<char>)
    requires
        forall|j: int| 0 <= j < a.len() ==> !is_delimiter(#[trigger] a[j]),
        is_delimiter(d),
    ensures
        split_word(a + seq![d] + r) == Some((a, r)),
{
    let s = a + seq![d] + r;
    lemma_first_delimiter(s, 0);
    let k = first_delimiter(s, 0);
    if k < a.len() {
        assert(s[k] == a[k]);
    } else if k > a.len() {
        assert(s[a.len() as int] == d);
    }
    assert(s.subrange(0, k) =~= a);
    assert(s.subrange(k + 1, s.len() as int) =~= r);
}

/// Splits `request` at its first space or carriage return: the text before it
/// and the text after it, or `None` when it holds neither.
pub fn get_next_word<'a>(request: &'a str) -> (r: Option<(&'a str, &'a str)>)
    ensures
        match r {
            Some((word, rest)) => split_word(request@) == Some((word@, rest@)),
            None => split_word(request@) is None,
        },
{
    let n = request.unicode_len();
    let mut i: usize = 0;
    while i < n
        invariant
            n == request@.len(),
            0 <= i <= n,
            first_delimiter(request@, 0) == first_delimiter(request@, i as int),
        decreases n - i,
    {
        let c = request.get_char(i);
        if c == ' ' || c == '\r' {
            return Some((request.substring_char(0, i), request.substring_char(i + 1, n)));
        }
        i = i + 1;
    }
    None
}

/// Position of the first `c` in `s` at or after `from`, if any.
pub fn find_char(s: &str, c: char, from: usize) -> (r: Option<usize>)
    requires
        from <= s@.len(),
    ensures
        match r {
            Some(i) => i == first_of(s@, c, from as int) && i < s@.len(),
            None => first_of(s@, c, from as int) == s@.len(),
        },
{
    let n = s.unicode_len();
    let mut i: usize = from;
    while i < n
        invariant
            n == s@.len(),
            from <= i <= n,
            first_of(s@, c, from as int) == first_of(s@, c, i as int),
        decreases n - i,
    {
        if s.get_char(i) == c {
            return Some(i);
        }
        i = i + 1;
    }
    None
}

/// Whether two texts hold the same characters.
pub fn same_text(a: &str, b: &str) -> (r: bool)
    ensures
        r == (a@ == b@),
{
    let n = a.unicode_len();
    if n != b.unicode_len() {
        return false;
    }
    let mut i: usize = 0;
    while i < n
        invariant
            n == a@.len(),
            n == b@.len(),
            0 <= i <= n,
            forall|j: int| 0 <= j < i ==> a@[j] == b@[j],
        decreases n - i,
    {
        if a.get_char(i) != b.get_char(i) {
            return false;
        }
        i = i + 1;
    }
    assert(a@ =~= b@);
    true
}

} // verus!

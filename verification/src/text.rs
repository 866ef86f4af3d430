//! Text as a sequence of characters: trimming, line endings, searching and decimal numerals.
use vstd::prelude::*;

verus! {

/// Appends one character to the end of a string, as `String::push` documents.
pub assume_specification[ String::push ](s: &mut String, c: char)
    ensures
        final(s)@ == old(s)@.push(c),
;

/// The characters with the Unicode property `White_Space`.
pub open spec fn is_white_space(c: char) -> bool {
    let p = c as u32;
    ||| 9 <= p <= 13
    ||| p == 0x20
    ||| p == 0x85
    ||| p == 0xA0
    ||| p == 0x1680
    ||| 0x2000 <= p <= 0x200A
    ||| p == 0x2028
    ||| p == 0x2029
    ||| p == 0x202F
    ||| p == 0x205F
    ||| p == 0x3000
}

/// `s` without its leading white space.
pub open spec fn trim_start(s: Seq<char>) -> Seq<char>
    decreases s.len(),
{
    if s.len() > 0 && is_white_space(s[0]) {
        trim_start(s.skip(1))
    } else {
        s
    }
}

/// `s` without its trailing white space.
pub open spec fn trim_end(s: Seq<char>) -> Seq<char>
    decreases s.len(),
{
    if s.len() > 0 && is_white_space(s.last()) {
        trim_end(s.drop_last())
    } else {
        s
    }
}

/// `s` without its leading and trailing white space.
pub open spec fn trim(s: Seq<char>) -> Seq<char> {
    trim_end(trim_start(s))
}

/// `s` with every carriage return that stands directly before a line feed dropped.
pub open spec fn lf_only(s: Seq<char>) -> Seq<char>
    decreases s.len(),
{
    if s.len() == 0 {
        s
    } else if s.len() >= 2 && s[0] == '\r' && s[1] == '\n' {
        seq!['\n'] + lf_only(s.skip(2))
    } else {
        seq![s[0]] + lf_only(s.skip(1))
    }
}

/// `pattern` stands in `s` at position `i`.
pub open spec fn occurs_at(s: Seq<char>, pattern: Seq<char>, i: int) -> bool {
    &&& 0 <= i
    &&& i + pattern.len() <= s.len()
    &&& s.subrange(i, i + pattern.len()) == pattern
}

/// `pattern` stands somewhere in `s`.
pub open spec fn occurs(s: Seq<char>, pattern: Seq<char>) -> bool {
    exists|i: int| occurs_at(s, pattern, i)
}

/// `s` starts with `pattern`.
pub open spec fn has_prefix(s: Seq<char>, pattern: Seq<char>) -> bool {
    pattern.len() <= s.len() && s.take(pattern.len() as int) == pattern
}

/// An empty line starts at position `i`: two line feeds in a row.
pub open spec fn is_break_at(s: Seq<char>, i: int) -> bool {
    0 <= i && i + 1 < s.len() && s[i] == '\n' && s[i + 1] == '\n'
}

/// The position of the first pair of line feeds at or after `from`.
pub open spec fn break_from(s: Seq<char>, from: int) -> Option<int>
    decreases s.len() - from,
{
    if from < 0 || from >= s.len() {
        None
    } else if is_break_at(s, from) {
        Some(from)
    } else {
        break_from(s, from + 1)
    }
}

/// The position of the first pair of line feeds.
pub open spec fn first_break(s: Seq<char>) -> Option<int> {
    break_from(s, 0)
}

/// The decimal numeral of `n`.
pub open spec fn decimal(n: nat) -> Seq<char>
    decreases n,
{
    if n < 10 {
        seq![digit(n)]
    } else {
        decimal(n / 10).push(digit(n % 10))
    }
}

/// The character of a decimal digit.
pub open spec fn digit(n: nat) -> char {
    (n + 0x30) as char
}

/// Whether `c` has the Unicode property `White_Space`.
pub fn char_is_white_space(c: char) -> (res: bool)
    ensures
        res == is_white_space(c),
{
    let p: u32 = c as u32;
    (9 <= p && p <= 13) || p == 0x20 || p == 0x85 || p == 0xA0 || p == 0x1680 || (0x2000 <= p && p
        <= 0x200A) || p == 0x2028 || p == 0x2029 || p == 0x202F || p == 0x205F || p == 0x3000
}

/// The characters of a string.
pub fn chars_of(s: &str) -> (res: Vec<char>)
    ensures
        res@ == s@,
{
    let mut res: Vec<char> = Vec::new();
    for c in it: s.chars()
        invariant
            it.seq() == s@,
            res@ == s@.take(it.index()),
    {
        res.push(c);
        proof {
            assert(s@.take(it.index() + 1) =~= s@.take(it.index()).push(c));
        }
    }
    proof {
        assert(s@.take(s@.len() as int) =~= s@);
    }
    res
}

/// The text between two positions, as a string.
pub fn string_of(text: &Vec<char>, start: usize, end: usize) -> (res: String)
    requires
        start <= end <= text@.len(),
    ensures
        res@ == text@.subrange(start as int, end as int),
{
    let mut res = String::new();
    let mut i: usize = start;
    while i < end
        invariant
            start <= i <= end <= text@.len(),
            res@ == text@.subrange(start as int, i as int),
        decreases end - i,
    {
        res.push(text[i]);
        proof {
            assert(text@.subrange(start as int, i + 1) =~= text@.subrange(
                start as int,
                i as int,
            ).push(text@[i as int]));
        }
        i += 1;
    }
    res
}

/// Trimming from the left stops at the first character that is no white space.
proof fn lemma_trim_start(s: Seq<char>, k: int)
    requires
        0 <= k <= s.len(),
        forall|j: int| 0 <= j < k ==> is_white_space(#[trigger] s[j]),
        k < s.len() ==> !is_white_space(s[k]),
    ensures
        trim_start(s) == s.skip(k),
    decreases k,
{
    if k == 0 {
        assert(s.skip(0) =~= s);
    } else {
        let t = s.skip(1);
        assert forall|j: int| 0 <= j < k - 1 implies is_white_space(#[trigger] t[j]) by {
            assert(t[j] == s[j + 1]);
        }
        lemma_trim_start(t, k - 1);
        assert(t.skip(k - 1) =~= s.skip(k));
    }
}

/// Trimming from the right stops at the last character that is no white space.
proof fn lemma_trim_end(s: Seq<char>, k: int)
    requires
        0 <= k <= s.len(),
        forall|j: int| k <= j < s.len() ==> is_white_space(#[trigger] s[j]),
        k > 0 ==> !is_white_space(s[k - 1]),
    ensures
        trim_end(s) == s.take(k),
    decreases s.len() - k,
{
    if k == s.len() {
        assert(s.take(k) =~= s);
    } else {
        let t = s.drop_last();
        assert(is_white_space(s[s.len() - 1]));
        assert forall|j: int| k <= j < t.len() implies is_white_space(#[trigger] t[j]) by {
            assert(t[j] == s[j]);
        }
        lemma_trim_end(t, k);
        assert(t.take(k) =~= s.take(k));
    }
}

/// The bounds of the text between `start` and `end` once it is trimmed.
pub fn trim_bounds(text: &Vec<char>, start: usize, end: usize) -> (res: (usize, usize))
    requires
        start <= end <= text@.len(),
    ensures
        start <= res.0 <= res.1 <= end,
        text@.subrange(res.0 as int, res.1 as int) == trim(
            text@.subrange(start as int, end as int),
        ),
{
    let ghost whole = text@.subrange(start as int, end as int);
    let mut lo: usize = start;
    while lo < end && char_is_white_space(text[lo])
        invariant
            start <= lo <= end <= text@.len(),
            forall|j: int| start <= j < lo ==> is_white_space(#[trigger] text@[j]),
        decreases end - lo,
    {
        lo += 1;
    }
    proof {
        lemma_trim_start(whole, lo - start);
        assert(whole.skip(lo - start) =~= text@.subrange(lo as int, end as int));
    }
    let ghost left = text@.subrange(lo as int, end as int);
    let mut hi: usize = end;
    while hi > lo && char_is_white_space(text[hi - 1])
        invariant
            lo <= hi <= end <= text@.len(),
            forall|j: int| hi <= j < end ==> is_white_space(#[trigger] text@[j]),
        decreases hi - lo,
    {
        hi -= 1;
    }
    proof {
        lemma_trim_end(left, hi - lo);
        assert(left.take(hi - lo) =~= text@.subrange(lo as int, hi as int));
    }
    (lo, hi)
}

/// Appends `text` with its line endings reduced to line feeds.
pub fn append_lf_only(out: &mut Vec<char>, text: &str)
    ensures
        final(out)@ == old(out)@ + lf_only(text@),
{
    let chars = chars_of(text);
    let ghost before = out@;
    let ghost all = chars@;
    let n = chars.len();
    let mut i: usize = 0;
    proof {
        assert(all.skip(0) =~= all);
        assert(before + lf_only(all) =~= out@ + lf_only(all.skip(0)));
    }
    while i < n
        invariant
            n == chars@.len(),
            chars@ == all,
            i <= n,
            before + lf_only(all) == out@ + lf_only(all.skip(i as int)),
        decreases n - i,
    {
        let ghost rest = all.skip(i as int);
        let ghost done = out@;
        if i + 1 < n && chars[i] == '\r' && chars[i + 1] == '\n' {
            out.push('\n');
            proof {
                assert(rest.skip(2) =~= all.skip(i + 2));
                assert(lf_only(rest) == seq!['\n'] + lf_only(rest.skip(2)));
                assert(done + lf_only(rest) =~= out@ + lf_only(all.skip(i + 2)));
            }
            i += 2;
        } else {
            out.push(chars[i]);
            proof {
                assert(rest.skip(1) =~= all.skip(i + 1));
                assert(lf_only(rest) == seq![rest[0]] + lf_only(rest.skip(1)));
                assert(done + lf_only(rest) =~= out@ + lf_only(all.skip(i + 1)));
            }
            i += 1;
        }
    }
    proof {
        assert(all.skip(n as int) =~= Seq::<char>::empty());
        assert(out@ + lf_only(all.skip(n as int)) =~= out@);
    }
}

/// A search finds the first empty line at or after its start, or there is none from there on.
pub proof fn lemma_break_from(s: Seq<char>, from: int)
    requires
        0 <= from,
    ensures
        match break_from(s, from) {
            Some(i) => from <= i && is_break_at(s, i) && forall|j: int|
                from <= j < i ==> !#[trigger] is_break_at(s, j),
            None => forall|j: int| from <= j ==> !#[trigger] is_break_at(s, j),
        },
    decreases s.len() - from,
{
    if from < s.len() && !is_break_at(s, from) {
        lemma_break_from(s, from + 1);
    }
}

/// The first pair of line feeds is the only place that is one with none before it.
pub proof fn lemma_break_is(s: Seq<char>, from: int, i: int)
    requires
        0 <= from <= i,
        is_break_at(s, i),
        forall|j: int| from <= j < i ==> !#[trigger] is_break_at(s, j),
    ensures
        break_from(s, from) == Some(i),
{
    lemma_break_from(s, from);
}

/// The first pair of line feeds at or after `from`.
pub fn find_break(text: &Vec<char>, from: usize) -> (res: Option<usize>)
    requires
        from <= text@.len(),
    ensures
        match res {
            Some(i) => first_break(text@.skip(from as int)) == Some(i - from) && from <= i && i + 2
                <= text@.len(),
            None => first_break(text@.skip(from as int)) is None,
        },
{
    let n = text.len();
    let ghost tail = text@.skip(from as int);
    let mut i: usize = from;
    while i < n
        invariant
            n == text@.len(),
            from <= i <= n,
            tail == text@.skip(from as int),
            forall|j: int| 0 <= j < i - from ==> !#[trigger] is_break_at(tail, j),
        decreases n - i,
    {
        if i + 1 < n && text[i] == '\n' && text[i + 1] == '\n' {
            proof {
                assert(is_break_at(tail, i - from));
                lemma_break_is(tail, 0, i - from);
            }
            return Some(i);
        }
        proof {
            assert(!is_break_at(tail, i - from)) by {
                if i + 1 < n {
                    assert(tail[i - from] == text@[i as int]);
                    assert(tail[i - from + 1] == text@[i + 1]);
                }
            }
        }
        i += 1;
    }
    proof {
        lemma_break_from(tail, 0);
    }
    None
}

/// Whether the text from `start` on, up to `end`, starts with `pattern`.
pub fn range_has_prefix(text: &Vec<char>, start: usize, end: usize, pattern: &str) -> (res: bool)
    requires
        start <= end <= text@.len(),
    ensures
        res == has_prefix(text@.subrange(start as int, end as int), pattern@),
{
    let p = chars_of(pattern);
    let ghost whole = text@.subrange(start as int, end as int);
    if p.len() > end - start {
        return false;
    }
    let mut i: usize = 0;
    while i < p.len()
        invariant
            i <= p@.len() <= end - start,
            start <= end <= text@.len(),
            p@ == pattern@,
            whole == text@.subrange(start as int, end as int),
            forall|j: int| 0 <= j < i ==> whole[j] == #[trigger] pattern@[j],
        decreases p@.len() - i,
    {
        if text[start + i] != p[i] {
            proof {
                assert(whole.take(p@.len() as int)[i as int] != pattern@[i as int]);
            }
            return false;
        }
        i += 1;
    }
    proof {
        assert(whole.take(pattern@.len() as int) =~= pattern@);
    }
    true
}

/// Whether the text between `start` and `end` is `literal`.
pub fn range_equals(text: &Vec<char>, start: usize, end: usize, literal: &str) -> (res: bool)
    requires
        start <= end <= text@.len(),
    ensures
        res == (text@.subrange(start as int, end as int) == literal@),
{
    let ghost whole = text@.subrange(start as int, end as int);
    let n = chars_of(literal).len();
    if n != end - start {
        return false;
    }
    proof {
        assert(whole.take(literal@.len() as int) =~= whole);
    }
    range_has_prefix(text, start, end, literal)
}

/// Whether two strings hold the same text.
pub fn same_text(a: &str, b: &str) -> (res: bool)
    ensures
        res == (a@ == b@),
{
    let x = a.to_owned();
    let y = b.to_owned();
    x == y
}

/// Whether `needle` stands somewhere in `haystack`.
pub fn contains(haystack: &str, needle: &str) -> (res: bool)
    ensures
        res == occurs(haystack@, needle@),
{
    let text = chars_of(haystack);
    let n = text.len();
    let m = chars_of(needle).len();
    if m > n {
        return false;
    }
    let mut i: usize = 0;
    while i <= n - m
        invariant
            n == text@.len(),
            m == needle@.len(),
            m <= n,
            text@ == haystack@,
            i <= n - m + 1,
            forall|j: int| 0 <= j < i ==> !#[trigger] occurs_at(haystack@, needle@, j),
        decreases n - m + 1 - i,
    {
        if range_equals(&text, i, i + m, needle) {
            assert(occurs_at(haystack@, needle@, i as int));
            return true;
        }
        assert(!occurs_at(haystack@, needle@, i as int));
        if i == n - m {
            return false;
        }
        i += 1;
    }
    false
}

/// The decimal numeral of a number.
pub fn decimal_of(n: usize) -> (res: String)
    ensures
        res@ == decimal(n as nat),
    decreases n,
{
    let last: u8 = (n % 10) as u8;
    let c: char = (last + 0x30) as char;
    proof {
        assert(c == digit((n % 10) as nat));
    }
    let mut res = if n < 10 {
        String::new()
    } else {
        decimal_of(n / 10)
    };
    res.push(c);
    proof {
        if n < 10 {
            assert(res@ =~= decimal(n as nat));
        }
    }
    res
}

/// Two strings joined.
pub fn join(a: &str, b: &str) -> (res: String)
    ensures
        res@ == a@ + b@,
{
    let mut res = a.to_owned();
    res.append(b);
    res
}

/// Reducing line endings works piece by piece, except where a carriage return ends one piece and
/// its line feed starts the next.
pub proof fn lemma_lf_only_concat(a: Seq<char>, b: Seq<char>)
    requires
        !(a.len() > 0 && b.len() > 0 && a.last() == '\r' && b[0] == '\n'),
    ensures
        lf_only(a + b) == lf_only(a) + lf_only(b),
    decreases a.len(),
{
    if a.len() == 0 {
        assert(a + b =~= b);
        assert(lf_only(a) + lf_only(b) =~= lf_only(b));
    } else if a.len() >= 2 && a[0] == '\r' && a[1] == '\n' {
        assert((a + b).skip(2) =~= a.skip(2) + b);
        lemma_lf_only_concat(a.skip(2), b);
        assert(seq!['\n'] + (lf_only(a.skip(2)) + lf_only(b)) =~= (seq!['\n'] + lf_only(a.skip(2)))
            + lf_only(b));
    } else {
        assert((a + b).skip(1) =~= a.skip(1) + b);
        lemma_lf_only_concat(a.skip(1), b);
        assert(seq![a[0]] + (lf_only(a.skip(1)) + lf_only(b)) =~= (seq![a[0]] + lf_only(a.skip(1)))
            + lf_only(b));
    }
}

} // verus!

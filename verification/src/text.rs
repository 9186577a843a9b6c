//! Character sequences: searching, splitting, trimming, replacing and decimal numbers.
use vstd::prelude::*;
use vstd::slice::slice_subrange;

verus! {

// ─── Models ──────────────────────────────────────────────────────────────────

/// The characters with the Unicode property `White_Space`.
pub open spec fn is_white_space(c: char) -> bool {
    let n = c as u32;
    ||| 0x09 <= n <= 0x0d
    ||| n == 0x20
    ||| n == 0x85
    ||| n == 0xa0
    ||| n == 0x1680
    ||| 0x2000 <= n <= 0x200a
    ||| n == 0x2028
    ||| n == 0x2029
    ||| n == 0x202f
    ||| n == 0x205f
    ||| n == 0x3000
}

/// `s` without its leading white space.
pub open spec fn trim_start(s: Seq<char>) -> Seq<char>
    decreases s.len(),
{
    if s.len() > 0 && is_white_space(s[0]) {
        trim_start(s.drop_first())
    } else {
        s
    }
}

/// `s` without its trailing white space.
pub open spec fn trim_end(s: Seq<char>) -> Seq<char>
    decreases s.len(),
{
    if s.len() > 0 && is_white_space(s.last()) {
        trim_end(s.drop_last())
    } else {
        s
    }
}

/// `s` without white space at either end.
pub open spec fn trim(s: Seq<char>) -> Seq<char> {
    trim_end(trim_start(s))
}

/// `p` stands in `s` at index `i`.
pub open spec fn occurs_at(s: Seq<char>, p: Seq<char>, i: int) -> bool {
    0 <= i && i + p.len() <= s.len() && s.subrange(i, i + p.len()) =~= p
}

/// `p` stands somewhere in `s`.
pub open spec fn contains(s: Seq<char>, p: Seq<char>) -> bool {
    exists|i: int| occurs_at(s, p, i)
}

/// `s` begins with `p`.
pub open spec fn starts_with(s: Seq<char>, p: Seq<char>) -> bool {
    occurs_at(s, p, 0)
}

/// `s` ends with `p`.
pub open spec fn ends_with(s: Seq<char>, p: Seq<char>) -> bool {
    occurs_at(s, p, s.len() - p.len())
}

/// The first index not below `k` at which `p` stands in `s`.
pub open spec fn find_from(s: Seq<char>, p: Seq<char>, k: int) -> Option<int>
    decreases s.len() - k,
{
    if k + p.len() > s.len() {
        None
    } else if occurs_at(s, p, k) {
        Some(k)
    } else {
        find_from(s, p, k + 1)
    }
}

/// The first index at which `p` stands in `s`.
pub open spec fn find(s: Seq<char>, p: Seq<char>) -> Option<int> {
    find_from(s, p, 0)
}

/// The part of `s` before the first `p`, or all of `s`.
pub open spec fn before(s: Seq<char>, p: Seq<char>) -> Seq<char> {
    match find(s, p) {
        Some(i) => s.take(i),
        None => s,
    }
}

/// The part of `s` after the first `p`, if there is one.
pub open spec fn after(s: Seq<char>, p: Seq<char>) -> Option<Seq<char>> {
    match find(s, p) {
        Some(i) => Some(s.skip(i + p.len())),
        None => None,
    }
}

/// The field at place `n` of `s`, where `p` stands between each two fields.
pub open spec fn field(s: Seq<char>, p: Seq<char>, n: nat) -> Option<Seq<char>>
    decreases n,
{
    if n == 0 {
        Some(before(s, p))
    } else {
        match after(s, p) {
            Some(rest) => field(rest, p, (n - 1) as nat),
            None => None,
        }
    }
}

/// `s` with every `from` replaced by `to`, scanning from the left without overlaps.
pub open spec fn replace_all(s: Seq<char>, from: Seq<char>, to: Seq<char>) -> Seq<char>
    decreases s.len(),
{
    match find(s, from) {
        Some(i) => if from.len() > 0 && 0 <= i && i + from.len() <= s.len() {
            s.take(i) + to + replace_all(s.skip(i + from.len()), from, to)
        } else {
            s
        },
        None => s,
    }
}

/// A line as it stands before its line feed, without a carriage return at its end.
pub open spec fn strip_carriage_return(s: Seq<char>) -> Seq<char> {
    if s.len() > 0 && s.last() == '\r' {
        s.drop_last()
    } else {
        s
    }
}

/// The lines of `s`. A line ends at a line feed, with or without a carriage return before it;
/// the last line needs no line feed.
pub open spec fn lines(s: Seq<char>) -> Seq<Seq<char>>
    decreases s.len(),
{
    if s.len() == 0 {
        seq![]
    } else {
        match find(s, seq!['\n']) {
            Some(i) => if 0 <= i < s.len() {
                seq![strip_carriage_return(s.take(i))] + lines(s.skip(i + 1))
            } else {
                seq![s]
            },
            None => seq![s],
        }
    }
}

/// The parts one after another, with `sep` between each two of them.
pub open spec fn join(parts: Seq<Seq<char>>, sep: Seq<char>) -> Seq<char>
    decreases parts.len(),
{
    if parts.len() == 0 {
        seq![]
    } else if parts.len() == 1 {
        parts[0]
    } else {
        join(parts.drop_last(), sep) + sep + parts.last()
    }
}

/// A decimal digit.
pub open spec fn is_digit(c: char) -> bool {
    '0' <= c <= '9'
}

/// `s` holds decimal digits only.
pub open spec fn all_digits(s: Seq<char>) -> bool {
    forall|i: int| 0 <= i < s.len() ==> is_digit(#[trigger] s[i])
}

/// The number that a sequence of decimal digits stands for.
pub open spec fn digits_value(s: Seq<char>) -> nat
    decreases s.len(),
{
    if s.len() == 0 {
        0
    } else {
        digits_value(s.drop_last()) * 10 + (s.last() as int - '0' as int) as nat
    }
}

/// The unsigned number not above `max` that `s` writes: digits, with at most one `+` before them.
pub open spec fn parse_decimal(s: Seq<char>, max: nat) -> Option<nat> {
    let d = if s.len() > 0 && s[0] == '+' {
        s.skip(1)
    } else {
        s
    };
    if d.len() > 0 && all_digits(d) && digits_value(d) <= max {
        Some(digits_value(d))
    } else {
        None
    }
}

/// The digit for a number below ten.
pub open spec fn digit_char(d: nat) -> char {
    (d + '0' as int) as char
}

/// A number in decimal digits.
pub open spec fn decimal(n: nat) -> Seq<char>
    decreases n,
{
    if n < 10 {
        seq![digit_char(n)]
    } else {
        decimal(n / 10).push(digit_char(n % 10))
    }
}

// ─── Facts ───────────────────────────────────────────────────────────────────

/// What [`find_from`] gives: the least index from `k` on, or nothing where there is none.
pub proof fn lemma_find_from(s: Seq<char>, p: Seq<char>, k: int)
    requires
        0 <= k,
    ensures
        match find_from(s, p, k) {
            Some(i) => k <= i && occurs_at(s, p, i) && forall|j: int|
                k <= j < i ==> !occurs_at(s, p, j),
            None => forall|j: int| k <= j ==> !occurs_at(s, p, j),
        },
    decreases s.len() - k,
{
    if k + p.len() <= s.len() && !occurs_at(s, p, k) {
        lemma_find_from(s, p, k + 1);
    }
}

/// A text holds `p` exactly when the search for `p` finds an index.
pub proof fn lemma_find_contains(s: Seq<char>, p: Seq<char>)
    ensures
        find(s, p) is Some <==> contains(s, p),
{
    lemma_find_from(s, p, 0);
}

/// An index at which `p` stands, with none before it, is the one that the search gives.
pub proof fn lemma_find_is(s: Seq<char>, p: Seq<char>, k: int, i: int)
    requires
        0 <= k <= i,
        occurs_at(s, p, i),
        forall|j: int| k <= j < i ==> !occurs_at(s, p, j),
    ensures
        find_from(s, p, k) == Some(i),
{
    lemma_find_from(s, p, k);
    match find_from(s, p, k) {
        Some(m) => {
            assert(!(i < m)) by {
                if i < m {
                    assert(!occurs_at(s, p, i));
                }
            }
        },
        None => {
            assert(!occurs_at(s, p, i));
        },
    }
}

/// Where `p` stands in `s`, the characters agree one by one.
pub proof fn lemma_occurs_chars(s: Seq<char>, p: Seq<char>, i: int)
    requires
        occurs_at(s, p, i),
    ensures
        0 <= i,
        i + p.len() <= s.len(),
        forall|k: int| 0 <= k < p.len() ==> #[trigger] s[i + k] == p[k],
{
    let cut = s.subrange(i, i + p.len());
    assert forall|k: int| 0 <= k < p.len() implies #[trigger] s[i + k] == p[k] by {
        assert(cut[k] == p[k]);
    }
}

/// Where the characters agree one by one, `p` stands in `s`.
pub proof fn lemma_chars_occur(s: Seq<char>, p: Seq<char>, i: int)
    requires
        0 <= i,
        i + p.len() <= s.len(),
        forall|k: int| 0 <= k < p.len() ==> #[trigger] s[i + k] == p[k],
    ensures
        occurs_at(s, p, i),
{
    let cut = s.subrange(i, i + p.len());
    assert forall|k: int| 0 <= k < p.len() implies cut[k] == p[k] by {
        assert(s[i + k] == p[k]);
    }
    assert(cut =~= p);
}

/// A text splits at the first of its separators.
pub proof fn lemma_split_first(head: Seq<char>, p: Seq<char>, tail: Seq<char>)
    requires
        p.len() == 1,
        !head.contains(p[0]),
    ensures
        before(head + p + tail, p) == head,
        after(head + p + tail, p) == Some(tail),
{
    let s = head + p + tail;
    let n = head.len() as int;
    assert(s.subrange(n, n + 1) =~= p);
    assert forall|j: int| 0 <= j < n implies !occurs_at(s, p, j) by {
        if occurs_at(s, p, j) {
            lemma_occurs_chars(s, p, j);
            assert(s[j + 0] == p[0]);
            assert(head[j] == p[0]);
        }
    }
    lemma_find_is(s, p, 0, n);
    assert(s.take(n) =~= head);
    assert(s.skip(n + 1) =~= tail);
}

/// A separator behind a head that, with its beginning, holds none is the first one.
pub proof fn lemma_first_of(head: Seq<char>, p: Seq<char>, tail: Seq<char>)
    requires
        p.len() > 0,
        !contains(head + p.drop_last(), p),
    ensures
        find(head + p + tail, p) == Some(head.len() as int),
{
    let s = head + p + tail;
    let n = head.len() as int;
    let short = head + p.drop_last();
    assert(s.subrange(n, n + p.len()) =~= p);
    assert forall|j: int| 0 <= j < n implies !occurs_at(s, p, j) by {
        if occurs_at(s, p, j) {
            lemma_occurs_chars(s, p, j);
            assert forall|k: int| 0 <= k < p.len() implies #[trigger] short[j + k] == p[k] by {
                assert(s[j + k] == p[k]);
            }
            lemma_chars_occur(short, p, j);
        }
    }
    lemma_find_is(s, p, 0, n);
}

/// What stands in a part of a text stands in the whole.
pub proof fn lemma_part_contains(head: Seq<char>, part: Seq<char>, tail: Seq<char>, p: Seq<char>)
    requires
        contains(part, p),
    ensures
        contains(head + part + tail, p),
{
    let whole = head + part + tail;
    let k = choose|k: int| occurs_at(part, p, k);
    let at = head.len() + k;
    assert(whole.subrange(at, at + p.len()) =~= part.subrange(k, k + p.len()));
    assert(occurs_at(whole, p, at));
}

/// A text stands in itself.
pub proof fn lemma_contains_itself(s: Seq<char>)
    ensures
        contains(s, s),
{
    assert(s.subrange(0, s.len() as int) =~= s);
    assert(occurs_at(s, s, 0));
}

// ─── Executable counterparts ─────────────────────────────────────────────────

/// [`String::push`] puts one character behind those that are there.
pub assume_specification[ String::push ](s: &mut String, c: char)
    ensures
        final(s)@ == old(s)@.push(c),
;

/// The characters of a string.
pub fn chars_of(s: &str) -> (r: Vec<char>)
    ensures
        r@ == s@,
{
    let mut out: Vec<char> = Vec::new();
    for c in it: s.chars()
        invariant
            it.seq() == s@,
            out@ == s@.take(it.index() as int),
    {
        out.push(c);
        assert(s@.take(it.index() + 1) =~= s@.take(it.index() as int).push(c));
    }
    assert(s@.take(s@.len() as int) =~= s@);
    out
}

/// A string of the given characters.
pub fn text_of(s: &[char]) -> (r: String)
    ensures
        r@ == s@,
{
    let mut out = String::new();
    let mut i: usize = 0;
    while i < s.len()
        invariant
            i <= s@.len(),
            out@ == s@.take(i as int),
        decreases s.len() - i,
    {
        out.push(s[i]);
        assert(s@.take(i + 1) =~= s@.take(i as int).push(s@[i as int]));
        i = i + 1;
    }
    assert(s@.take(s@.len() as int) =~= s@);
    out
}

/// Whether a character has the Unicode property `White_Space`.
pub fn white_space(c: char) -> (r: bool)
    ensures
        r == is_white_space(c),
{
    let n: u32 = c as u32;
    (0x09 <= n && n <= 0x0d) || n == 0x20 || n == 0x85 || n == 0xa0 || n == 0x1680 || (0x2000 <= n
        && n <= 0x200a) || n == 0x2028 || n == 0x2029 || n == 0x202f || n == 0x205f || n == 0x3000
}

/// The characters without white space at either end.
pub fn trimmed(s: &[char]) -> (r: &[char])
    ensures
        r@ == trim(s@),
{
    let n: usize = s.len();
    let mut lo: usize = 0;
    assert(s@.skip(0) =~= s@);
    while lo < n && white_space(s[lo])
        invariant
            lo <= n == s@.len(),
            trim_start(s@) == trim_start(s@.skip(lo as int)),
        decreases n - lo,
    {
        assert(s@.skip(lo as int).drop_first() =~= s@.skip(lo + 1));
        lo = lo + 1;
    }
    let ghost start = s@.skip(lo as int);
    assert(trim_start(s@) == start);
    let mut hi: usize = n;
    assert(s@.subrange(lo as int, n as int) =~= start);
    while lo < hi && white_space(s[hi - 1])
        invariant
            lo <= hi <= n == s@.len(),
            trim_end(start) == trim_end(s@.subrange(lo as int, hi as int)),
        decreases hi,
    {
        assert(s@.subrange(lo as int, hi as int).drop_last() =~= s@.subrange(lo as int, hi - 1));
        hi = hi - 1;
    }
    assert(trim_end(start) == s@.subrange(lo as int, hi as int));
    slice_subrange(s, lo, hi)
}

/// Whether `p` stands in `s` at index `i`.
pub fn stands_at(s: &[char], p: &[char], i: usize) -> (r: bool)
    ensures
        r == occurs_at(s@, p@, i as int),
{
    let n: usize = s.len();
    if i > n || p.len() > n - i {
        return false;
    }
    let mut j: usize = 0;
    while j < p.len()
        invariant
            i + p@.len() <= n == s@.len(),
            j <= p@.len(),
            forall|k: int| 0 <= k < j ==> s@[i + k] == p@[k],
        decreases p.len() - j,
    {
        if s[i + j] != p[j] {
            assert(s@.subrange(i as int, i + p@.len())[j as int] != p@[j as int]);
            return false;
        }
        j = j + 1;
    }
    true
}

/// The first index not below `k` at which `p` stands in `s`.
pub fn search_from(s: &[char], p: &[char], k: usize) -> (r: Option<usize>)
    ensures
        match r {
            Some(i) => find_from(s@, p@, k as int) == Some(i as int) && i + p@.len() <= s@.len(),
            None => find_from(s@, p@, k as int) is None,
        },
{
    let mut i: usize = k;
    while i <= s.len() && p.len() <= s.len() - i
        invariant
            i >= k,
            find_from(s@, p@, k as int) == find_from(s@, p@, i as int),
        decreases s.len() + 1 - i,
    {
        if stands_at(s, p, i) {
            return Some(i);
        }
        if i == s.len() {
            assert(find_from(s@, p@, i + 1) is None);
            return None;
        }
        i = i + 1;
    }
    None
}

/// The first index at which `p` stands in `s`.
pub fn search(s: &[char], p: &str) -> (r: Option<usize>)
    ensures
        match r {
            Some(i) => find(s@, p@) == Some(i as int) && i + p@.len() <= s@.len(),
            None => find(s@, p@) is None,
        },
{
    let needle = chars_of(p);
    search_from(s, needle.as_slice(), 0)
}

/// The part of `s` before the first `p`, or all of `s`.
pub fn part_before<'a>(s: &'a [char], p: &str) -> (r: &'a [char])
    ensures
        r@ == before(s@, p@),
{
    match search(s, p) {
        Some(i) => {
            let r = slice_subrange(s, 0, i);
            assert(r@ =~= s@.take(i as int));
            r
        },
        None => s,
    }
}

/// The part of `s` after the first `p`, if there is one.
pub fn part_after<'a>(s: &'a [char], p: &str) -> (r: Option<&'a [char]>)
    ensures
        match r {
            Some(rest) => after(s@, p@) == Some(rest@),
            None => after(s@, p@) is None,
        },
{
    let width: usize = chars_of(p).len();
    let n: usize = s.len();
    match search(s, p) {
        Some(i) => {
            let rest = slice_subrange(s, i + width, n);
            assert(rest@ =~= s@.skip(i + p@.len()));
            Some(rest)
        },
        None => None,
    }
}

/// The field at place `n` of `s`, where `p` stands between each two fields.
pub fn nth_field<'a>(s: &'a [char], p: &str, n: usize) -> (r: Option<&'a [char]>)
    ensures
        match r {
            Some(f) => field(s@, p@, n as nat) == Some(f@),
            None => field(s@, p@, n as nat) is None,
        },
{
    let width: usize = chars_of(p).len();
    let mut rest: &'a [char] = s;
    let mut left: usize = n;
    while left > 0
        invariant
            width == p@.len(),
            field(s@, p@, n as nat) == field(rest@, p@, left as nat),
        decreases left,
    {
        match search(rest, p) {
            Some(i) => {
                let len: usize = rest.len();
                let next = slice_subrange(rest, i + width, len);
                assert(next@ =~= rest@.skip(i + p@.len()));
                rest = next;
                left = left - 1;
            },
            None => return None,
        }
    }
    Some(part_before(rest, p))
}

/// Whether `p` stands somewhere in `s`.
pub fn holds(s: &[char], p: &str) -> (r: bool)
    ensures
        r == contains(s@, p@),
{
    proof {
        lemma_find_contains(s@, p@);
    }
    search(s, p).is_some()
}

/// Whether `s` begins with `p`.
pub fn begins_with(s: &[char], p: &str) -> (r: bool)
    ensures
        r == starts_with(s@, p@),
{
    let needle = chars_of(p);
    stands_at(s, needle.as_slice(), 0)
}

/// Whether `s` ends with `p`.
pub fn finishes_with(s: &[char], p: &str) -> (r: bool)
    ensures
        r == ends_with(s@, p@),
{
    let needle = chars_of(p);
    let n: usize = s.len();
    let width: usize = needle.len();
    width <= n && stands_at(s, needle.as_slice(), n - width)
}

/// Whether the string `s` begins with the string `p`.
pub fn str_begins_with(s: &str, p: &str) -> (r: bool)
    ensures
        r == starts_with(s@, p@),
{
    let t = chars_of(s);
    begins_with(t.as_slice(), p)
}

/// Whether two strings hold the same characters.
pub fn str_equal(a: &str, b: &str) -> (r: bool)
    ensures
        r == (a@ == b@),
{
    let s = chars_of(a);
    let t = chars_of(b);
    if s.len() != t.len() {
        return false;
    }
    proof {
        assert(occurs_at(s@, t@, 0) <==> s@ == t@) by {
            assert(s@.subrange(0, t@.len() as int) =~= s@);
        }
    }
    stands_at(s.as_slice(), t.as_slice(), 0)
}

/// The characters with every `from` replaced by `to`.
pub fn replaced(s: &[char], from: &[char], to: &[char]) -> (r: Vec<char>)
    requires
        from@.len() > 0,
    ensures
        r@ == replace_all(s@, from@, to@),
{
    let n: usize = s.len();
    let mut out: Vec<char> = Vec::new();
    let mut at: usize = 0;
    assert(s@.skip(0) =~= s@);
    assert(replace_all(s@, from@, to@) =~= out@ + replace_all(s@.skip(0), from@, to@));
    loop
        invariant
            n == s@.len(),
            at <= n,
            from@.len() > 0,
            replace_all(s@, from@, to@) =~= out@ + replace_all(s@.skip(at as int), from@, to@),
        decreases n - at,
    {
        let rest = slice_subrange(s, at, n);
        assert(rest@ =~= s@.skip(at as int));
        match search_from(rest, from, 0) {
            Some(i) => {
                let ghost before_out = out@;
                append_chars(&mut out, slice_subrange(rest, 0, i));
                append_chars(&mut out, to);
                proof {
                    assert(rest@.subrange(0, i as int) =~= rest@.take(i as int));
                    assert(rest@.skip(i + from@.len()) =~= s@.skip(at + i + from@.len()));
                    assert(out@ + replace_all(rest@.skip(i + from@.len()), from@, to@)
                        =~= before_out + replace_all(rest@, from@, to@));
                }
                at = at + i + from.len();
            },
            None => {
                append_chars(&mut out, rest);
                return out;
            },
        }
    }
}

/// Puts the characters of `tail` behind those of `out`.
pub fn append_chars(out: &mut Vec<char>, tail: &[char])
    ensures
        final(out)@ == old(out)@ + tail@,
{
    let mut i: usize = 0;
    assert(tail@.take(0) =~= Seq::<char>::empty());
    while i < tail.len()
        invariant
            i <= tail@.len(),
            out@ =~= old(out)@ + tail@.take(i as int),
        decreases tail.len() - i,
    {
        out.push(tail[i]);
        assert(tail@.take(i + 1) =~= tail@.take(i as int).push(tail@[i as int]));
        i = i + 1;
    }
    assert(tail@.take(tail@.len() as int) =~= tail@);
}

/// The views of a list of character slices.
pub open spec fn slice_views(v: Seq<&[char]>) -> Seq<Seq<char>> {
    v.map_values(|x: &[char]| x@)
}

/// The lines of a text.
pub fn split_lines<'a>(s: &'a [char]) -> (r: Vec<&'a [char]>)
    ensures
        slice_views(r@) == lines(s@),
{
    let n: usize = s.len();
    let feed = chars_of("\n");
    proof {
        reveal_strlit("\n");
        assert(feed@ =~= seq!['\n']);
    }
    let mut out: Vec<&'a [char]> = Vec::new();
    let mut at: usize = 0;
    assert(s@.skip(0) =~= s@);
    while at < n
        invariant
            n == s@.len(),
            at <= n,
            feed@ == seq!['\n'],
            lines(s@) =~= slice_views(out@) + lines(s@.skip(at as int)),
        decreases n - at,
    {
        let rest = slice_subrange(s, at, n);
        assert(rest@ =~= s@.skip(at as int));
        match search_from(rest, feed.as_slice(), 0) {
            Some(i) => {
                let ghost old_out = out@;
                let mut end: usize = i;
                if i > 0 && rest[i - 1] == '\r' {
                    end = i - 1;
                }
                let line = slice_subrange(rest, 0, end);
                proof {
                    assert(line@ =~= strip_carriage_return(rest@.take(i as int)));
                    assert(rest@.skip(i + 1) =~= s@.skip(at + i + 1));
                    lemma_push_view(old_out, line);
                    assert(slice_views(old_out.push(line)) + lines(rest@.skip(i + 1))
                        =~= slice_views(old_out) + lines(rest@));
                }
                out.push(line);
                at = at + i + 1;
            },
            None => {
                let ghost old_out = out@;
                out.push(rest);
                proof {
                    lemma_push_view(old_out, rest);
                    assert(lines(rest@) == seq![rest@]);
                    assert(lines(s@) =~= slice_views(out@));
                }
                return out;
            },
        }
    }
    assert(s@.skip(n as int).len() == 0);
    out
}

proof fn lemma_push_view(v: Seq<&[char]>, x: &[char])
    ensures
        slice_views(v.push(x)) =~= slice_views(v).push(x@),
{
}

/// The unsigned 64-bit number that the characters write, if they write one.
pub fn parse_u64(s: &[char]) -> (r: Option<u64>)
    ensures
        r == (match parse_decimal(s@, u64::MAX as nat) {
            Some(n) => Some(n as u64),
            None => None,
        }),
{
    let n: usize = s.len();
    let start: usize = if n > 0 && s[0] == '+' {
        1
    } else {
        0
    };
    let ghost d = s@.skip(start as int);
    assert(start == 0 ==> d =~= s@);
    if start == n {
        return None;
    }
    let mut value: u64 = 0;
    let mut i: usize = start;
    assert(d.take(0).len() == 0);
    while i < n
        invariant
            n == s@.len(),
            start <= i <= n,
            start <= 1,
            d == s@.skip(start as int),
            s@.len() > start,
            d == (if s@.len() > 0 && s@[0] == '+' {
                s@.skip(1)
            } else {
                s@
            }),
            all_digits(d.take(i - start)),
            value == digits_value(d.take(i - start)),
        decreases n - i,
    {
        let c = s[i];
        proof {
            assert(d[i - start] == c);
        }
        if !('0' <= c && c <= '9') {
            return None;
        }
        let digit: u64 = (c as u32 - '0' as u32) as u64;
        proof {
            assert(d.take(i - start + 1).drop_last() =~= d.take(i - start));
            assert(digits_value(d.take(i - start + 1)) == value * 10 + digit);
            lemma_digits_value_grows(d, i - start + 1);
            assert(all_digits(d.take(i - start + 1))) by {
                assert forall|j: int| 0 <= j < i - start + 1 implies is_digit(
                    #[trigger] d.take(i - start + 1)[j],
                ) by {
                    if j < i - start {
                        assert(d.take(i - start + 1)[j] == d.take(i - start)[j]);
                    }
                }
            }
        }
        if value > (u64::MAX - digit) / 10 {
            assert(value * 10 + digit > u64::MAX);
            return None;
        }
        value = value * 10 + digit;
        i = i + 1;
    }
    assert(d.take(d.len() as int) =~= d);
    Some(value)
}

/// A longer run of digits stands for no smaller a number.
proof fn lemma_digits_value_grows(d: Seq<char>, k: int)
    requires
        0 <= k <= d.len(),
    ensures
        digits_value(d.take(k)) <= digits_value(d),
    decreases d.len() - k,
{
    if k < d.len() {
        lemma_digits_value_grows(d, k + 1);
        assert(d.take(k + 1).drop_last() =~= d.take(k));
    } else {
        assert(d.take(k) =~= d);
    }
}

/// A number in decimal digits.
pub fn decimal_of(n: u64) -> (r: String)
    ensures
        r@ == decimal(n as nat),
    decreases n,
{
    let mut out = if n < 10 {
        String::new()
    } else {
        decimal_of(n / 10)
    };
    let digit: u8 = (n % 10) as u8;
    let c: char = (digit + 48) as char;
    assert(c == digit_char((n % 10) as nat));
    let ghost lead = out@;
    out.push(c);
    assert(n < 10 ==> out@ =~= seq![digit_char(n as nat)]);
    out
}

/// Reading the decimal digits of a number back gives that number.
pub proof fn law_decimal_reads_back(n: nat, max: nat)
    requires
        n <= max,
    ensures
        parse_decimal(decimal(n), max) == Some(n),
{
    lemma_decimal(n);
    let s = decimal(n);
    assert(is_digit(s[0]));
    assert(s[0] != '+');
}

/// A number in decimal digits holds digits only.
pub proof fn lemma_decimal_digits(n: nat)
    ensures
        all_digits(decimal(n)),
{
    lemma_decimal(n);
}

proof fn lemma_decimal(n: nat)
    ensures
        decimal(n).len() > 0,
        all_digits(decimal(n)),
        digits_value(decimal(n)) == n,
    decreases n,
{
    let s = decimal(n);
    let c = digit_char(n % 10);
    assert(c as int == n % 10 + '0' as int);
    if n >= 10 {
        lemma_decimal(n / 10);
        assert(s.drop_last() =~= decimal(n / 10));
    } else {
        assert(s.drop_last() =~= seq![]);
        assert(digits_value(s.drop_last()) == 0);
    }
}

// ─── Laws ────────────────────────────────────────────────────────────────────

/// What stands between two parts of a text is held by it, and what a text holds stands between two
/// parts of it.
pub proof fn law_contains_is_to_stand_between(s: Seq<char>, p: Seq<char>)
    ensures
        forall|a: Seq<char>, b: Seq<char>| s == #[trigger] (a + p + b) ==> contains(s, p),
        contains(s, p) ==> exists|a: Seq<char>, b: Seq<char>| s == #[trigger] (a + p + b),
{
    assert forall|a: Seq<char>, b: Seq<char>| s == #[trigger] (a + p + b) implies contains(s, p) by {
        let n = a.len() as int;
        assert(s.subrange(n, n + p.len()) =~= p);
        assert(occurs_at(s, p, a.len() as int));
    }
    if contains(s, p) {
        let i = choose|i: int| occurs_at(s, p, i);
        let a = s.take(i);
        let b = s.skip(i + p.len());
        assert(s.subrange(i, i + p.len()) =~= p);
        assert(s =~= a + p + b);
    }
}

/// A text begins with what its head is, and ends with what its tail is.
pub proof fn law_heads_and_tails(s: Seq<char>, p: Seq<char>, a: Seq<char>)
    ensures
        starts_with(p + a, p),
        starts_with(s, p) ==> s == p + s.skip(p.len() as int),
        ends_with(a + p, p),
        ends_with(s, p) ==> s == s.take(s.len() - p.len()) + p,
{
    assert((p + a).subrange(0, p.len() as int) =~= p);
    if starts_with(s, p) {
        let n = p.len() as int;
        assert(s.subrange(0, n) =~= p);
        assert(s =~= s.subrange(0, n) + s.skip(n));
    }
    assert(ends_with(a + p, p)) by {
        let n = a.len() as int;
        assert((a + p).len() - p.len() == n);
        assert((a + p).subrange(n, n + p.len()) =~= p);
    }
    if ends_with(s, p) {
        let n = s.len() - p.len();
        assert(s.subrange(n, n + p.len()) =~= p);
        assert(s =~= s.take(n) + s.subrange(n, n + p.len()));
    }
}

/// A text is put together again from the parts before and after the first of its separators, and the
/// part before, with the beginning of a separator behind it, holds none. A text without a separator
/// is all before it.
pub proof fn law_parts_make_the_whole(s: Seq<char>, p: Seq<char>)
    ensures
        contains(s, p) <==> after(s, p) is Some,
        contains(s, p) ==> s == before(s, p) + p + after(s, p)->0,
        !contains(s, p) ==> before(s, p) == s,
        p.len() > 0 && contains(s, p) ==> !contains(before(s, p) + p.drop_last(), p),
        p.len() > 0 ==> !contains(before(s, p), p),
{
    lemma_find_from(s, p, 0);
    lemma_find_contains(s, p);
    if let Some(i) = find(s, p) {
        assert(s.subrange(i, i + p.len()) =~= p);
        assert(s =~= before(s, p) + p + after(s, p)->0);
    }
    if p.len() > 0 && contains(s, p) {
        let i = find(s, p)->0;
        let head = before(s, p) + p.drop_last();
        if contains(head, p) {
            let j = choose|j: int| occurs_at(head, p, j);
            lemma_occurs_chars(head, p, j);
            lemma_occurs_chars(s, p, i);
            assert forall|k: int| 0 <= k < p.len() implies #[trigger] s[j + k] == p[k] by {
                assert(head[j + k] == p[k]);
                if j + k >= i {
                    assert(s[i + (j + k - i)] == p[j + k - i]);
                }
            }
            lemma_chars_occur(s, p, j);
        }
        if contains(before(s, p), p) {
            lemma_part_contains(seq![], before(s, p), p.drop_last(), p);
            assert(seq![] + before(s, p) + p.drop_last() =~= head);
        }
    }
}

/// Trimming takes white space away, at the two ends, and all of it that stands there: what is left is
/// a part of the text, around it there is white space only, and it neither begins nor ends with any.
pub proof fn law_trimming_takes_white_space_only(s: Seq<char>)
    ensures
        exists|a: Seq<char>, b: Seq<char>|
            s == #[trigger] (a + trim(s) + b) && (forall|i: int|
                0 <= i < a.len() ==> is_white_space(#[trigger] a[i])) && (forall|i: int|
                0 <= i < b.len() ==> is_white_space(#[trigger] b[i])),
        trim(s).len() > 0 ==> !is_white_space(trim(s)[0]) && !is_white_space(trim(s).last()),
{
    let rest = trim_start(s);
    lemma_trim_start(s);
    lemma_trim_end(rest);
    let a = s.take(s.len() - rest.len());
    let b = rest.skip(trim(s).len() as int);
    assert(s =~= a + trim(s) + b);
    if trim(s).len() > 0 {
        assert(trim(s)[0] == rest[0]);
    }
}

/// Trimming takes a character off either end of a text exactly where it is a blank of Unicode: one of
/// the five controls from the tabulator to the carriage return, the next line, a space of any width,
/// or a separator of lines or paragraphs.
pub proof fn law_blanks_are_trimmed(s: Seq<char>, c: char)
    ensures
        ({
            let n = c as u32;
            let blank = (9 <= n && n <= 13) || n == 32 || n == 133 || n == 160 || n == 5760 || (8192
                <= n && n <= 8202) || n == 8232 || n == 8233 || n == 8239 || n == 8287 || n == 12288;
            &&& blank ==> trim(seq![c] + s) == trim(s) && trim(s + seq![c]) == trim(s)
            &&& !blank ==> trim(seq![c] + s).len() > 0 && trim(seq![c] + s)[0] == c && trim(
                s + seq![c],
            ).last() == c && trim(seq![c]) == seq![c]
        }),
{
    let front = seq![c] + s;
    let back = s + seq![c];
    assert(front[0] == c && front.drop_first() =~= s);
    assert(back.last() == c && back.drop_last() =~= s);
    if is_white_space(c) {
        lemma_trim_back(s, c);
    } else {
        assert(trim_start(front) == front);
        lemma_trim_end(front);
        if trim_end(front).len() == 0 {
            assert(is_white_space(front[0]));
        }
        lemma_trim_start(back);
        let rest = trim_start(back);
        if rest.len() == 0 {
            assert(is_white_space(back[back.len() - 1]));
        }
        assert(rest.last() == c);
        assert(trim_start(seq![c]) == seq![c]);
        assert(trim_end(seq![c]) == seq![c]);
    }
}

/// Trimming takes a white space off the end of a text.
proof fn lemma_trim_back(s: Seq<char>, c: char)
    requires
        is_white_space(c),
    ensures
        trim(s + seq![c]) == trim(s),
    decreases s.len(),
{
    let back = s + seq![c];
    if s.len() == 0 {
        assert(back =~= seq![c]);
        assert(back.drop_first() =~= s);
    } else if is_white_space(s[0]) {
        assert(back.drop_first() =~= s.drop_first() + seq![c]);
        lemma_trim_back(s.drop_first(), c);
    } else {
        assert(back.drop_last() =~= s);
    }
}

proof fn lemma_trim_start(s: Seq<char>)
    ensures
        trim_start(s).len() <= s.len(),
        trim_start(s) == s.skip(s.len() - trim_start(s).len()),
        forall|i: int|
            0 <= i < s.len() - trim_start(s).len() ==> is_white_space(#[trigger] s[i]),
        trim_start(s).len() > 0 ==> !is_white_space(trim_start(s)[0]),
    decreases s.len(),
{
    if s.len() > 0 && is_white_space(s[0]) {
        let t = s.drop_first();
        lemma_trim_start(t);
        assert(t.skip(t.len() - trim_start(t).len()) =~= s.skip(s.len() - trim_start(s).len()));
        assert forall|i: int| 0 <= i < s.len() - trim_start(s).len() implies is_white_space(
            #[trigger] s[i],
        ) by {
            if i > 0 {
                assert(t[i - 1] == s[i]);
            }
        }
    } else {
        assert(s.skip(0) =~= s);
    }
}

proof fn lemma_trim_end(s: Seq<char>)
    ensures
        trim_end(s).len() <= s.len(),
        trim_end(s) == s.take(trim_end(s).len() as int),
        forall|i: int| trim_end(s).len() <= i < s.len() ==> is_white_space(#[trigger] s[i]),
        trim_end(s).len() > 0 ==> !is_white_space(trim_end(s).last()),
    decreases s.len(),
{
    if s.len() > 0 && is_white_space(s.last()) {
        let t = s.drop_last();
        lemma_trim_end(t);
        assert(t.take(trim_end(t).len() as int) =~= s.take(trim_end(s).len() as int));
        assert forall|i: int| trim_end(s).len() <= i < s.len() implies is_white_space(
            #[trigger] s[i],
        ) by {
            if i < t.len() {
                assert(t[i] == s[i]);
            }
        }
    } else {
        assert(s.take(s.len() as int) =~= s);
    }
}

/// A text without carriage returns that does not end with a line feed is put together again from its
/// lines, with a line feed between each two of them; and no line holds a line feed.
pub proof fn law_lines_make_the_whole(s: Seq<char>)
    requires
        s.len() > 0,
        !s.contains('\r'),
        s.last() != '\n',
    ensures
        join(lines(s), seq!['\n']) == s,
        lines(s).len() > 0,
        forall|i: int| 0 <= i < lines(s).len() ==> !(#[trigger] lines(s)[i]).contains('\n'),
    decreases s.len(),
{
    let p = seq!['\n'];
    lemma_find_from(s, p, 0);
    match find(s, p) {
        Some(i) => {
            lemma_occurs_chars(s, p, i);
            assert(s[i + 0] == '\n');
            let head = s.take(i);
            let rest = s.skip(i + 1);
            assert(rest.len() > 0);
            assert(rest.last() == s.last());
            assert(!rest.contains('\r')) by {
                if rest.contains('\r') {
                    let j = choose|j: int| 0 <= j < rest.len() && rest[j] == '\r';
                    assert(s[j + i + 1] == '\r');
                }
            }
            assert(!head.contains('\n')) by {
                if head.contains('\n') {
                    let j = choose|j: int| 0 <= j < head.len() && head[j] == '\n';
                    assert(s.subrange(j, j + 1) =~= p);
                    assert(occurs_at(s, p, j));
                }
            }
            assert(strip_carriage_return(head) == head) by {
                if head.len() > 0 {
                    assert(s.contains(s[i - 1]));
                }
            }
            law_lines_make_the_whole(rest);
            let ls = lines(s);
            assert(ls =~= seq![head] + lines(rest));
            lemma_join_front(head, lines(rest), p);
            assert(s =~= head + p + rest);
            assert forall|k: int| 0 <= k < ls.len() implies !(#[trigger] ls[k]).contains('\n') by {
                if k > 0 {
                    assert(ls[k] == lines(rest)[k - 1]);
                }
            }
        },
        None => {
            assert(lines(s) =~= seq![s]);
            assert(!s.contains('\n')) by {
                if s.contains('\n') {
                    let j = choose|j: int| 0 <= j < s.len() && s[j] == '\n';
                    assert(s.subrange(j, j + 1) =~= p);
                    assert(occurs_at(s, p, j));
                }
            }
        },
    }
}

/// Joining a part and others joins the part, and those others joined.
pub proof fn lemma_join_front(head: Seq<char>, parts: Seq<Seq<char>>, sep: Seq<char>)
    requires
        parts.len() > 0,
    ensures
        join(seq![head] + parts, sep) == head + sep + join(parts, sep),
    decreases parts.len(),
{
    let all = seq![head] + parts;
    if parts.len() == 1 {
        assert(all.drop_last() =~= seq![head]);
        assert(join(seq![head], sep) == head);
    } else {
        lemma_join_front(head, parts.drop_last(), sep);
        assert(all.drop_last() =~= seq![head] + parts.drop_last());
        assert(all.last() == parts.last());
        assert(head + sep + join(parts.drop_last(), sep) + sep + parts.last() =~= head + sep + (join(
            parts.drop_last(),
            sep,
        ) + sep + parts.last()));
    }
}

/// A line feed splits a text: the lines of what stands before it come first, as one line where that
/// holds none, without a carriage return at its end; then the lines of the rest.
pub proof fn law_line_feeds_split(head: Seq<char>, rest: Seq<char>)
    requires
        !head.contains('\n'),
    ensures
        head.len() > 0 ==> lines(head) == seq![head],
        head.len() == 0 || head.last() != '\r' ==> lines(head + seq!['\n'] + rest) == seq![head] + lines(
            rest,
        ),
        lines(head + seq!['\r', '\n'] + rest) == seq![head] + lines(rest),
{
    let p = seq!['\n'];
    if head.len() > 0 {
        lemma_find_from(head, p, 0);
        if let Some(i) = find(head, p) {
            lemma_occurs_chars(head, p, i);
            assert(head[i + 0] == '\n');
        }
        assert(lines(head) =~= seq![head]);
    }
    lemma_line_ends(head, rest);
    let long = head.push('\r');
    assert(!long.contains('\n')) by {
        if long.contains('\n') {
            let j = choose|j: int| 0 <= j < long.len() && long[j] == '\n';
            assert(head[j] == '\n');
        }
    }
    lemma_line_ends(long, rest);
    assert(long + seq!['\n'] + rest =~= head + seq!['\r', '\n'] + rest);
    assert(long.drop_last() =~= head);
}

proof fn lemma_line_ends(head: Seq<char>, rest: Seq<char>)
    requires
        !head.contains('\n'),
    ensures
        lines(head + seq!['\n'] + rest) == seq![strip_carriage_return(head)] + lines(rest),
{
    let p = seq!['\n'];
    let s = head + p + rest;
    let n = head.len() as int;
    lemma_split_first(head, p, rest);
    assert(s.subrange(n, n + 1) =~= p);
    assert forall|j: int| 0 <= j < n implies !occurs_at(s, p, j) by {
        if occurs_at(s, p, j) {
            lemma_occurs_chars(s, p, j);
            assert(s[j + 0] == '\n');
            assert(head[j] == '\n');
        }
    }
    lemma_find_is(s, p, 0, n);
    assert(s.take(n) =~= head);
    assert(s.skip(n + 1) =~= rest);
}

/// Replacing puts the new text in the place of the first of the old ones, and goes on behind it; a
/// text without the old one stays as it is, and replacing a text by itself changes nothing.
pub proof fn law_replacing(s: Seq<char>, from: Seq<char>, to: Seq<char>)
    requires
        from.len() > 0,
    ensures
        !contains(s, from) ==> replace_all(s, from, to) == s,
        contains(s, from) ==> exists|a: Seq<char>, b: Seq<char>|
            s == #[trigger] (a + from + b) && !contains(a, from) && replace_all(s, from, to) == a + to
                + replace_all(b, from, to),
        replace_all(s, from, from) == s,
    decreases s.len(),
{
    lemma_find_contains(s, from);
    lemma_find_from(s, from, 0);
    law_parts_make_the_whole(s, from);
    if contains(s, from) {
        let b = after(s, from)->0;
        assert(s == before(s, from) + from + b);
        law_replacing(b, from, to);
    }
}

/// A number in decimal digits has the digits of its tens before its ones.
pub proof fn law_decimal_digits_follow_the_tens(n: nat, d: nat)
    requires
        d < 10,
    ensures
        n > 0 ==> decimal(n * 10 + d) == decimal(n) + decimal(d),
        decimal(d).len() == 1,
        decimal(d)[0] as int == '0' as int + d,
{
    assert(digit_char(d) as int == d + '0' as int);
    if n > 0 {
        assert((n * 10 + d) / 10 == n && (n * 10 + d) % 10 == d) by (nonlinear_arith)
            requires
                d < 10,
        ;
        assert(decimal(n * 10 + d) =~= decimal(n) + decimal(d));
    }
}

/// A text reads as a number only where it is digits, with at most one plus sign before them; a plus
/// sign changes nothing; and what reads as a number of a range reads as the same one of any range
/// that holds it.
pub proof fn law_numbers_are_digits(s: Seq<char>, max: nat, other: nat)
    ensures
        parse_decimal(s, max) is Some ==> s.len() > 0 && forall|i: int|
            0 < i < s.len() ==> '0' <= #[trigger] s[i] <= '9',
        s.len() > 0 && '0' <= s[0] <= '9' ==> parse_decimal(seq!['+'] + s, max) == parse_decimal(
            s,
            max,
        ),
        parse_decimal(s, max) matches Some(n) ==> n <= max && (n <= other ==> parse_decimal(s, other)
            == Some(n)),
{
    let plus = seq!['+'] + s;
    assert(plus.skip(1) =~= s);
    if parse_decimal(s, max) is Some {
        if s[0] == '+' {
            let d = s.skip(1);
            assert forall|i: int| 0 < i < s.len() implies '0' <= #[trigger] s[i] <= '9' by {
                assert(is_digit(d[i - 1]));
            }
        } else {
            assert forall|i: int| 0 < i < s.len() implies '0' <= #[trigger] s[i] <= '9' by {
                assert(is_digit(s[i]));
            }
        }
    }
}

} // verus!

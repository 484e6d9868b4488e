//! Character-level text utilities: whitespace trimming, line splitting,
//! field splitting, substring search and conversions between `String`
//! and character vectors.
use vstd::prelude::*;

verus! {

// ---------------------------------------------------------------------
// Conversions between strings and character vectors
// ---------------------------------------------------------------------

/// Appends one character to a `String` (`String::push`).
#[verifier::external_body]
pub(crate) fn push_char(s: &mut String, c: char)
    ensures
        final(s)@ == old(s)@.push(c),
{
    s.push(c);
}

/// The characters of `s`, in order.
pub fn chars_of(s: &str) -> (out: Vec<char>)
    ensures
        out@ == s@,
{
    let mut out: Vec<char> = Vec::new();
    for c in it: s.chars()
        invariant
            out@ == it.seq().take(it.index() as int),
    {
        out.push(c);
    }
    out
}

/// A `String` holding exactly the characters of `chars`.
pub fn string_from(chars: &Vec<char>) -> (out: String)
    ensures
        out@ == chars@,
{
    let mut out = String::new();
    let mut i: usize = 0;
    while i < chars.len()
        invariant
            i <= chars.len(),
            out@ == chars@.take(i as int),
        decreases chars.len() - i,
    {
        push_char(&mut out, chars[i]);
        assert(chars@.take(i + 1) == chars@.take(i as int).push(chars@[i as int]));
        i += 1;
    }
    assert(chars@.take(chars.len() as int) == chars@);
    out
}

/// Appends all characters of `src` to `dst`.
pub fn append_chars(dst: &mut Vec<char>, src: &Vec<char>)
    ensures
        final(dst)@ == old(dst)@ + src@,
{
    let mut i: usize = 0;
    while i < src.len()
        invariant
            i <= src.len(),
            dst@ == old(dst)@ + src@.take(i as int),
        decreases src.len() - i,
    {
        dst.push(src[i]);
        assert(src@.take(i + 1) == src@.take(i as int).push(src@[i as int]));
        i += 1;
    }
    assert(src@.take(src.len() as int) == src@);
}

/// Appends all characters of the string `src` to `dst`.
pub fn append_str(dst: &mut Vec<char>, src: &str)
    ensures
        final(dst)@ == old(dst)@ + src@,
{
    let cs = chars_of(src);
    append_chars(dst, &cs);
}

/// The characters of `v` from index `a` up to (not including) `b`.
pub fn subvec(v: &Vec<char>, a: usize, b: usize) -> (out: Vec<char>)
    requires
        a <= b <= v.len(),
    ensures
        out@ == v@.subrange(a as int, b as int),
{
    let mut out: Vec<char> = Vec::new();
    let mut i: usize = a;
    while i < b
        invariant
            a <= i <= b <= v.len(),
            out@ == v@.subrange(a as int, i as int),
        decreases b - i,
    {
        out.push(v[i]);
        assert(v@.subrange(a as int, i + 1) == v@.subrange(a as int, i as int).push(v@[i as int]));
        i += 1;
    }
    out
}

/// Whether two character vectors hold the same characters.
pub fn chars_eq(a: &Vec<char>, b: &Vec<char>) -> (r: bool)
    ensures
        r == (a@ == b@),
{
    if a.len() != b.len() {
        return false;
    }
    let mut i: usize = 0;
    while i < a.len()
        invariant
            i <= a.len() == b.len(),
            forall|j: int| 0 <= j < i ==> a@[j] == b@[j],
        decreases a.len() - i,
    {
        if a[i] != b[i] {
            return false;
        }
        i += 1;
    }
    assert(a@ =~= b@);
    true
}

/// Whether two strings hold the same characters.
pub fn str_eq(a: &str, b: &str) -> (r: bool)
    ensures
        r == (a@ == b@),
{
    let x = chars_of(a);
    let y = chars_of(b);
    chars_eq(&x, &y)
}

/// A copy of `s`.
pub fn copy_string(s: &String) -> (out: String)
    ensures
        out@ == s@,
{
    s.clone()
}

// ---------------------------------------------------------------------
// Whitespace
// ---------------------------------------------------------------------

/// Unicode `White_Space` (what `char::is_whitespace` tests).
pub open spec fn is_ws(c: char) -> bool {
    let x = c as u32;
    ||| (0x09 <= x && x <= 0x0D)
    ||| x == 0x20
    ||| x == 0x85
    ||| x == 0xA0
    ||| x == 0x1680
    ||| (0x2000 <= x && x <= 0x200A)
    ||| x == 0x2028
    ||| x == 0x2029
    ||| x == 0x202F
    ||| x == 0x205F
    ||| x == 0x3000
}

/// Whether `c` is Unicode whitespace.
pub fn char_is_ws(c: char) -> (r: bool)
    ensures
        r == is_ws(c),
{
    let x = c as u32;
    (0x09 <= x && x <= 0x0D) || x == 0x20 || x == 0x85 || x == 0xA0 || x == 0x1680 || (0x2000
        <= x && x <= 0x200A) || x == 0x2028 || x == 0x2029 || x == 0x202F || x == 0x205F || x
        == 0x3000
}

/// `s` without its leading whitespace.
pub open spec fn trim_start(s: Seq<char>) -> Seq<char>
    decreases s.len(),
{
    if s.len() > 0 && is_ws(s[0]) {
        trim_start(s.drop_first())
    } else {
        s
    }
}

/// `s` without its trailing whitespace.
pub open spec fn trim_end(s: Seq<char>) -> Seq<char>
    decreases s.len(),
{
    if s.len() > 0 && is_ws(s.last()) {
        trim_end(s.drop_last())
    } else {
        s
    }
}

/// `s` without leading and trailing whitespace (`str::trim`).
pub open spec fn trim(s: Seq<char>) -> Seq<char> {
    trim_end(trim_start(s))
}

/// Whether `s` holds only whitespace (or nothing).
pub open spec fn is_blank(s: Seq<char>) -> bool {
    trim(s).len() == 0
}

proof fn lemma_trim_start_skip(s: Seq<char>, a: int)
    requires
        0 <= a <= s.len(),
        forall|j: int| 0 <= j < a ==> is_ws(s[j]),
        a == s.len() || !is_ws(s[a]),
    ensures
        trim_start(s) == s.skip(a),
    decreases a,
{
    if a == 0 {
        assert(s.skip(0) == s);
    } else {
        lemma_trim_start_skip(s.drop_first(), a - 1);
        assert(s.drop_first().skip(a - 1) == s.skip(a));
    }
}

proof fn lemma_trim_end_take(s: Seq<char>, b: int)
    requires
        0 <= b <= s.len(),
        forall|j: int| b <= j < s.len() ==> is_ws(s[j]),
        b == 0 || !is_ws(s[b - 1]),
    ensures
        trim_end(s) == s.take(b),
    decreases s.len() - b,
{
    if b == s.len() {
        assert(s.take(b) == s);
    } else {
        lemma_trim_end_take(s.drop_last(), b);
        assert(s.drop_last().take(b) == s.take(b));
    }
}

/// Lemma: blank exactly when every character is whitespace.
pub proof fn lemma_blank_all_ws(s: Seq<char>)
    ensures
        is_blank(s) <==> (forall|j: int| 0 <= j < s.len() ==> is_ws(s[j])),
    decreases s.len(),
{
    if s.len() > 0 {
        if is_ws(s[0]) {
            lemma_blank_all_ws(s.drop_first());
            if is_blank(s.drop_first()) {
                assert forall|j: int| 0 <= j < s.len() implies is_ws(s[j]) by {
                    if j > 0 {
                        assert(s[j] == s.drop_first()[j - 1]);
                    }
                }
            }
            if forall|j: int| 0 <= j < s.len() ==> is_ws(s[j]) {
                assert forall|j: int| 0 <= j < s.drop_first().len() implies is_ws(
                    s.drop_first()[j],
                ) by {
                    assert(s.drop_first()[j] == s[j + 1]);
                }
            }
        } else {
            let t = trim_start(s);
            assert(t == s);
            lemma_trim_end_nonempty(s);
        }
    }
}

proof fn lemma_trim_end_nonempty(s: Seq<char>)
    requires
        s.len() > 0,
        !is_ws(s[0]),
    ensures
        trim_end(s).len() > 0,
    decreases s.len(),
{
    if is_ws(s.last()) {
        assert(s.len() > 1);
        assert(s.drop_last()[0] == s[0]);
        lemma_trim_end_nonempty(s.drop_last());
    }
}

proof fn lemma_trim_start_len(s: Seq<char>)
    ensures
        trim_start(s).len() <= s.len(),
    decreases s.len(),
{
    if s.len() > 0 && is_ws(s[0]) {
        lemma_trim_start_len(s.drop_first());
    }
}

proof fn lemma_trim_end_len(s: Seq<char>)
    ensures
        trim_end(s).len() <= s.len(),
    decreases s.len(),
{
    if s.len() > 0 && is_ws(s.last()) {
        lemma_trim_end_len(s.drop_last());
    }
}

/// Lemma: a nonempty text that trimming leaves unchanged neither begins
/// nor ends with whitespace.
pub proof fn lemma_trimmed_edges(s: Seq<char>)
    requires
        trim(s) == s,
        s.len() > 0,
    ensures
        !is_ws(s[0]),
        !is_ws(s.last()),
{
    if is_ws(s[0]) {
        lemma_trim_start_len(s.drop_first());
        lemma_trim_end_len(trim_start(s));
        assert(false);
    }
    assert(trim_start(s) == s);
    if is_ws(s.last()) {
        lemma_trim_end_len(s.drop_last());
        assert(false);
    }
}

/// Lemma: what trailing whitespace trimming leaves of a text begins as
/// the text does.
pub proof fn lemma_trim_end_first(s: Seq<char>)
    requires
        trim_end(s).len() > 0,
    ensures
        trim_end(s)[0] == s[0],
    decreases s.len(),
{
    lemma_trim_end_len(s);
    if s.len() > 0 && is_ws(s.last()) {
        lemma_trim_end_first(s.drop_last());
        lemma_trim_end_len(s.drop_last());
    }
}

/// Lemma: trimming a text that begins with a character other than
/// whitespace leaves a nonempty text that begins with that character.
pub proof fn lemma_trim_keeps_first(s: Seq<char>)
    requires
        s.len() > 0,
        !is_ws(s[0]),
    ensures
        trim(s).len() > 0,
        trim(s)[0] == s[0],
{
    assert(trim_start(s) == s);
    lemma_trim_end_nonempty(s);
    lemma_trim_end_first(s);
}

/// The characters of `s` without leading and trailing whitespace.
pub fn trim_chars(s: &Vec<char>) -> (out: Vec<char>)
    ensures
        out@ == trim(s@),
{
    let mut a: usize = 0;
    while a < s.len() && char_is_ws(s[a])
        invariant
            a <= s.len(),
            forall|j: int| 0 <= j < a ==> is_ws(s@[j]),
        decreases s.len() - a,
    {
        a += 1;
    }
    proof {
        lemma_trim_start_skip(s@, a as int);
    }
    let mut b: usize = s.len();
    while b > a && char_is_ws(s[b - 1])
        invariant
            a <= b <= s.len(),
            forall|j: int| b <= j < s.len() ==> is_ws(s@[j]),
        decreases b,
    {
        b -= 1;
    }
    let ghost t = s@.skip(a as int);
    proof {
        assert forall|j: int| b - a <= j < t.len() implies is_ws(t[j]) by {
            assert(t[j] == s@[j + a]);
        }
        if b > a {
            assert(t[b - a - 1] == s@[b - 1]);
        }
        lemma_trim_end_take(t, b - a);
        assert(t.take(b - a) == s@.subrange(a as int, b as int));
    }
    subvec(s, a, b)
}

/// Whether `s` holds only whitespace.
pub fn chars_is_blank(s: &Vec<char>) -> (r: bool)
    ensures
        r == is_blank(s@),
{
    proof {
        lemma_blank_all_ws(s@);
    }
    let mut i: usize = 0;
    while i < s.len()
        invariant
            i <= s.len(),
            forall|j: int| 0 <= j < i ==> is_ws(s@[j]),
        decreases s.len() - i,
    {
        if !char_is_ws(s[i]) {
            assert(!is_blank(s@)) by {
                lemma_blank_all_ws(s@);
                assert(!is_ws(s@[i as int]));
            }
            return false;
        }
        i += 1;
    }
    true
}

// ---------------------------------------------------------------------
// Searching and splitting
// ---------------------------------------------------------------------

/// Index of the first `c` in `s`, or `s.len()` when `c` does not occur.
pub open spec fn find_char(s: Seq<char>, c: char) -> int
    decreases s.len(),
{
    if s.len() == 0 {
        0
    } else if s[0] == c {
        0
    } else {
        1 + find_char(s.drop_first(), c)
    }
}

/// Lemma: what `find_char` returns.
pub proof fn lemma_find_char(s: Seq<char>, c: char)
    ensures
        0 <= find_char(s, c) <= s.len(),
        forall|j: int| 0 <= j < find_char(s, c) ==> s[j] != c,
        find_char(s, c) < s.len() ==> s[find_char(s, c)] == c,
    decreases s.len(),
{
    if s.len() > 0 && s[0] != c {
        lemma_find_char(s.drop_first(), c);
        assert forall|j: int| 0 <= j < find_char(s, c) implies s[j] != c by {
            if j > 0 {
                assert(s[j] == s.drop_first()[j - 1]);
            }
        }
    }
}

/// Lemma: the first occurrence is unique.
pub proof fn lemma_find_char_at(s: Seq<char>, c: char, k: int)
    requires
        0 <= k <= s.len(),
        forall|j: int| 0 <= j < k ==> s[j] != c,
        k == s.len() || s[k] == c,
    ensures
        find_char(s, c) == k,
{
    lemma_find_char(s, c);
    let f = find_char(s, c);
    if f < k {
        assert(s[f] == c);
    } else if k < f {
        assert(s[k] != c);
    }
}

/// Index of the first `c` in `s[from..]`, or `s.len()`.
pub fn find_char_from(s: &Vec<char>, c: char, from: usize) -> (r: usize)
    requires
        from <= s.len(),
    ensures
        from <= r <= s.len(),
        r == from + find_char(s@.skip(from as int), c),
        forall|j: int| from <= j < r ==> s@[j] != c,
        r < s.len() ==> s@[r as int] == c,
{
    let mut i = from;
    while i < s.len() && s[i] != c
        invariant
            from <= i <= s.len(),
            forall|j: int| from <= j < i ==> s@[j] != c,
        decreases s.len() - i,
    {
        i += 1;
    }
    proof {
        let t = s@.skip(from as int);
        assert forall|j: int| 0 <= j < i - from implies t[j] != c by {
            assert(t[j] == s@[j + from]);
        }
        if i < s.len() {
            assert(t[i - from] == s@[i as int]);
        }
        lemma_find_char_at(t, c, i - from);
    }
    i
}

/// `s` without a trailing carriage return.
pub open spec fn strip_cr(line: Seq<char>) -> Seq<char> {
    if line.len() > 0 && line.last() == '\r' {
        line.drop_last()
    } else {
        line
    }
}

/// The lines of `s` (`str::lines`): split at `'\n'`, a `'\r'` just before
/// a `'\n'` dropped, and no empty line after a final `'\n'`.
pub open spec fn lines(s: Seq<char>) -> Seq<Seq<char>>
    decreases s.len(),
{
    if s.len() == 0 {
        seq![]
    } else {
        let i = find_char(s, '\n');
        if i >= s.len() {
            seq![s]
        } else {
            proof {
                lemma_find_char(s, '\n');
            }
            seq![strip_cr(s.take(i))] + lines(s.skip(i + 1))
        }
    }
}

/// The character sequences held by a sequence of character vectors.
pub open spec fn views(v: Seq<Vec<char>>) -> Seq<Seq<char>> {
    v.map_values(|x: Vec<char>| x@)
}

/// Lemma: `views` of a push.
pub proof fn lemma_views_push(v: Seq<Vec<char>>, x: Vec<char>)
    ensures
        views(v.push(x)) == views(v).push(x@),
{
    assert(views(v.push(x)) =~= views(v).push(x@));
}

/// A copy of `line` without a trailing carriage return.
fn strip_cr_chars(line: Vec<char>) -> (out: Vec<char>)
    ensures
        out@ == strip_cr(line@),
{
    let mut line = line;
    if line.len() > 0 && line[line.len() - 1] == '\r' {
        line.pop();
    }
    line
}

/// The lines of `s`, as `str::lines` yields them.
pub fn split_lines(s: &Vec<char>) -> (out: Vec<Vec<char>>)
    ensures
        views(out@) == lines(s@),
{
    let mut out: Vec<Vec<char>> = Vec::new();
    let mut start: usize = 0;
    assert(s@.skip(0) == s@);
    while start < s.len()
        invariant
            start <= s.len(),
            lines(s@) == views(out@) + lines(s@.skip(start as int)),
        decreases s.len() - start,
    {
        let i = find_char_from(s, '\n', start);
        let ghost t = s@.skip(start as int);
        if i == s.len() {
            let seg = subvec(s, start, i);
            assert(seg@ == t);
            proof {
                lemma_views_push(out@, seg);
            }
            out.push(seg);
            assert(lines(t) == seq![t]);
            assert(lines(s@.skip(s.len() as int)) == Seq::<Seq<char>>::empty());
            start = i;
        } else {
            let seg = subvec(s, start, i);
            let seg = strip_cr_chars(seg);
            proof {
                assert(t.take(i - start) == s@.subrange(start as int, i as int));
                assert(t.skip(i - start + 1) == s@.skip(i + 1));
                lemma_views_push(out@, seg);
            }
            out.push(seg);
            start = i + 1;
        }
    }
    assert(lines(s@.skip(start as int)) == Seq::<Seq<char>>::empty());
    out
}

/// Number of occurrences of `c` in `s`.
pub open spec fn count_char(s: Seq<char>, c: char) -> nat
    decreases s.len(),
{
    if s.len() == 0 {
        0
    } else {
        count_char(s.drop_last(), c) + if s.last() == c {
            1nat
        } else {
            0nat
        }
    }
}

/// How many times `c` occurs in `s`.
pub fn count_char_in(s: &Vec<char>, c: char) -> (n: usize)
    ensures
        n == count_char(s@, c),
{
    let mut n: usize = 0;
    let mut i: usize = 0;
    while i < s.len()
        invariant
            i <= s.len(),
            n == count_char(s@.take(i as int), c),
            n <= i,
        decreases s.len() - i,
    {
        assert(s@.take(i + 1).drop_last() == s@.take(i as int));
        if s[i] == c {
            n += 1;
        }
        i += 1;
    }
    assert(s@.take(s.len() as int) == s@);
    n
}

/// At most `n` pieces of `s` split at `c` (`str::splitn`, for `n >= 1`):
/// the last piece holds the rest of `s`.
pub open spec fn splitn(s: Seq<char>, n: nat, c: char) -> Seq<Seq<char>>
    decreases n,
{
    if n <= 1 {
        seq![s]
    } else {
        let i = find_char(s, c);
        if i >= s.len() {
            seq![s]
        } else {
            seq![s.take(i)] + splitn(s.skip(i + 1), (n - 1) as nat, c)
        }
    }
}

/// The pieces of `s` split at `c`, at most `n` of them.
pub fn splitn_chars(s: &Vec<char>, n: usize, c: char) -> (out: Vec<Vec<char>>)
    requires
        n >= 1,
    ensures
        views(out@) == splitn(s@, n as nat, c),
{
    let mut out: Vec<Vec<char>> = Vec::new();
    let mut start: usize = 0;
    let mut left: usize = n;
    assert(s@.skip(0) == s@);
    loop
        invariant
            start <= s.len(),
            1 <= left <= n,
            splitn(s@, n as nat, c) == views(out@) + splitn(s@.skip(start as int), left as nat, c),
        decreases left,
    {
        let ghost t = s@.skip(start as int);
        proof {
            lemma_find_char(t, c);
        }
        let i = if left <= 1 {
            s.len()
        } else {
            find_char_from(s, c, start)
        };
        if i == s.len() {
            let seg = subvec(s, start, s.len());
            assert(seg@ == t);
            proof {
                lemma_views_push(out@, seg);
            }
            out.push(seg);
            assert(splitn(t, left as nat, c) == seq![t]);
            assert(splitn(s@, n as nat, c) == views(out@));
            return out;
        }
        let seg = subvec(s, start, i);
        proof {
            assert(t.take(i - start) == s@.subrange(start as int, i as int));
            assert(t.skip(i - start + 1) == s@.skip(i + 1));
        }
        proof {
            lemma_views_push(out@, seg);
        }
        out.push(seg);
        start = i + 1;
        left = left - 1;
    }
}

/// `s` with every `\` `n` pair (a backslash followed by `n`) replaced by a
/// newline, scanning from the left (`str::replace("\\n", "\n")`).
pub open spec fn unescape_newlines(s: Seq<char>) -> Seq<char>
    decreases s.len(),
{
    if s.len() == 0 {
        s
    } else if s.len() >= 2 && s[0] == '\\' && s[1] == 'n' {
        seq!['\n'] + unescape_newlines(s.skip(2))
    } else {
        seq![s[0]] + unescape_newlines(s.skip(1))
    }
}

/// Replaces each `\` `n` pair in `s` by a newline.
pub fn unescape_newlines_chars(s: &Vec<char>) -> (out: Vec<char>)
    ensures
        out@ == unescape_newlines(s@),
{
    let mut out: Vec<char> = Vec::new();
    let mut i: usize = 0;
    assert(s@.skip(0) == s@);
    while i < s.len()
        invariant
            i <= s.len(),
            unescape_newlines(s@) == out@ + unescape_newlines(s@.skip(i as int)),
        decreases s.len() - i,
    {
        let ghost t = s@.skip(i as int);
        if i + 1 < s.len() && s[i] == '\\' && s[i + 1] == 'n' {
            assert(t[0] == s@[i as int] && t[1] == s@[i + 1]);
            assert(t.skip(2) == s@.skip(i + 2));
            out.push('\n');
            i += 2;
        } else {
            assert(t[0] == s@[i as int]);
            assert(t.len() >= 2 ==> t[1] == s@[i + 1]);
            assert(t.skip(1) == s@.skip(i + 1));
            out.push(s[i]);
            i += 1;
        }
    }
    assert(s@.skip(s.len() as int) == Seq::<char>::empty());
    out
}

/// Whether `needle` occurs in `hay` starting at index `i`.
pub open spec fn occurs_at(hay: Seq<char>, needle: Seq<char>, i: int) -> bool {
    0 <= i && i + needle.len() <= hay.len() && hay.subrange(i, i + needle.len()) == needle
}

/// Whether `needle` occurs in `hay` (`str::contains`).
pub open spec fn contains_seq(hay: Seq<char>, needle: Seq<char>) -> bool {
    exists|i: int| occurs_at(hay, needle, i)
}

/// Whether `needle` occurs in `hay`.
pub fn chars_contain(hay: &Vec<char>, needle: &Vec<char>) -> (r: bool)
    ensures
        r == contains_seq(hay@, needle@),
{
    if needle.len() > hay.len() {
        return false;
    }
    let mut i: usize = 0;
    while i <= hay.len() - needle.len()
        invariant
            needle.len() <= hay.len(),
            i <= hay.len() - needle.len() + 1,
            forall|k: int| 0 <= k < i ==> !occurs_at(hay@, needle@, k),
        decreases hay.len() - i,
    {
        let mut j: usize = 0;
        let mut same = true;
        while j < needle.len()
            invariant
                i + needle.len() <= hay.len(),
                j <= needle.len(),
                same == (forall|m: int| 0 <= m < j ==> hay@[i + m] == needle@[m]),
            decreases needle.len() - j,
        {
            if hay[i + j] != needle[j] {
                same = false;
            }
            j += 1;
        }
        if same {
            assert(hay@.subrange(i as int, i + needle.len()) =~= needle@);
            assert(occurs_at(hay@, needle@, i as int));
            return true;
        }
        assert(!occurs_at(hay@, needle@, i as int)) by {
            if occurs_at(hay@, needle@, i as int) {
                assert forall|m: int| 0 <= m < needle.len() implies hay@[i + m] == needle@[m] by {
                    assert(hay@.subrange(i as int, i + needle.len())[m] == hay@[i + m]);
                }
            }
        }
        i += 1;
    }
    assert forall|k: int| !occurs_at(hay@, needle@, k) by {
        if 0 <= k && k < i {
        }
    }
    false
}

/// Whether the string `needle` occurs in the string `hay`.
pub fn str_contains(hay: &str, needle: &str) -> (r: bool)
    ensures
        r == contains_seq(hay@, needle@),
{
    let h = chars_of(hay);
    let n = chars_of(needle);
    chars_contain(&h, &n)
}

// ---------------------------------------------------------------------
// Sizes
// ---------------------------------------------------------------------

/// Number of bytes of `c` in UTF-8.
pub open spec fn char_utf8_len(c: char) -> nat {
    let x = c as u32;
    if x < 0x80 {
        1
    } else if x < 0x800 {
        2
    } else if x < 0x10000 {
        3
    } else {
        4
    }
}

/// Number of bytes of `s` in UTF-8 (`str::len`).
pub open spec fn utf8_len(s: Seq<char>) -> nat
    decreases s.len(),
{
    if s.len() == 0 {
        0
    } else {
        utf8_len(s.drop_last()) + char_utf8_len(s.last())
    }
}

/// Number of bytes of `s` in UTF-8, saturating at `usize::MAX`.
pub fn utf8_len_of(s: &Vec<char>) -> (n: usize)
    ensures
        n == if utf8_len(s@) <= usize::MAX {
            utf8_len(s@)
        } else {
            usize::MAX as nat
        },
{
    let mut n: usize = 0;
    let mut i: usize = 0;
    while i < s.len()
        invariant
            i <= s.len(),
            n == if utf8_len(s@.take(i as int)) <= usize::MAX {
                utf8_len(s@.take(i as int))
            } else {
                usize::MAX as nat
            },
        decreases s.len() - i,
    {
        assert(s@.take(i + 1).drop_last() == s@.take(i as int));
        let x = s[i] as u32;
        let w: usize = if x < 0x80 {
            1
        } else if x < 0x800 {
            2
        } else if x < 0x10000 {
            3
        } else {
            4
        };
        n = n.saturating_add(w);
        i += 1;
    }
    assert(s@.take(s.len() as int) == s@);
    n
}

// ---------------------------------------------------------------------
// Numbers
// ---------------------------------------------------------------------

/// Whether `c` is an ASCII decimal digit.
pub open spec fn is_digit(c: char) -> bool {
    '0' <= c && c <= '9'
}

/// The value of a string of ASCII digits.
pub open spec fn digits_value(s: Seq<char>) -> nat
    decreases s.len(),
{
    if s.len() == 0 {
        0
    } else {
        digits_value(s.drop_last()) * 10 + ((s.last() as u32) - ('0' as u32)) as nat
    }
}

/// Whether `s` is a non-empty string of ASCII digits.
pub open spec fn all_digits(s: Seq<char>) -> bool {
    s.len() > 0 && forall|j: int| 0 <= j < s.len() ==> is_digit(s[j])
}

/// Whether `s` starts with a minus sign.
pub open spec fn sign_negative(s: Seq<char>) -> bool {
    s.len() > 0 && s[0] == '-'
}

/// `s` without a leading sign.
pub open spec fn unsigned_part(s: Seq<char>) -> Seq<char> {
    if s.len() > 0 && (s[0] == '-' || s[0] == '+') {
        s.skip(1)
    } else {
        s
    }
}

/// The integer that `s` writes (`i64::from_str`): an optional `+` or `-`
/// sign, then one or more ASCII digits; `None` for anything else and for
/// values outside `i64`.
pub open spec fn parse_i64(s: Seq<char>) -> Option<i64> {
    let neg = sign_negative(s);
    let body = unsigned_part(s);
    if !all_digits(body) {
        None
    } else {
        let v: int = if neg {
            -(digits_value(body) as int)
        } else {
            digits_value(body) as int
        };
        if i64::MIN <= v && v <= i64::MAX {
            Some(v as i64)
        } else {
            None
        }
    }
}

/// Parses `s` as an `i64` the way `str::parse::<i64>` does.
pub fn parse_i64_chars(s: &Vec<char>) -> (r: Option<i64>)
    ensures
        r == parse_i64(s@),
{
    let neg: bool = s.len() > 0 && s[0] == '-';
    let start: usize = if s.len() > 0 && (s[0] == '-' || s[0] == '+') {
        1
    } else {
        0
    };
    let ghost body = s@.skip(start as int);
    proof {
        if start == 0 {
            assert(body == s@);
        }
        assert(body == unsigned_part(s@));
        assert(neg == sign_negative(s@));
    }
    if start >= s.len() {
        assert(!all_digits(body));
        return None;
    }
    // Largest magnitude that fits: 2^63 for negatives, 2^63 - 1 otherwise.
    let limit: u64 = if neg {
        0x8000_0000_0000_0000u64
    } else {
        0x7FFF_FFFF_FFFF_FFFFu64
    };
    let mut v: u64 = 0;
    let mut i: usize = start;
    let mut over = false;
    assert(s@.subrange(start as int, start as int) =~= Seq::<char>::empty());
    while i < s.len()
        invariant
            start <= i <= s.len(),
            limit >= 0x7FFF_FFFF_FFFF_FFFFu64,
            body == s@.skip(start as int),
            body == unsigned_part(s@),
            neg == sign_negative(s@),
            limit == if neg {
                0x8000_0000_0000_0000u64
            } else {
                0x7FFF_FFFF_FFFF_FFFFu64
            },
            forall|j: int| start <= j < i ==> is_digit(s@[j]),
            !over ==> v == digits_value(s@.subrange(start as int, i as int)),
            !over ==> v <= limit,
            over ==> digits_value(s@.subrange(start as int, i as int)) > limit,
        decreases s.len() - i,
    {
        let c = s[i];
        if !('0' <= c && c <= '9') {
            assert(!all_digits(body)) by {
                assert(body[i - start] == s@[i as int]);
            }
            return None;
        }
        let d = (c as u32 - '0' as u32) as u64;
        assert(d <= 9);
        let ghost pre = s@.subrange(start as int, i as int);
        let ghost cur = s@.subrange(start as int, i + 1);
        assert(cur.drop_last() == pre);
        assert(cur.last() == c);
        assert(digits_value(cur) == digits_value(pre) * 10 + d);
        if !over {
            if v > (limit - d) / 10 {
                over = true;
                assert(digits_value(cur) > limit) by (nonlinear_arith)
                    requires
                        digits_value(cur) == v * 10 + d,
                        v > (limit - d) / 10,
                        d <= 9,
                        d <= limit,
                ;
            } else {
                assert(v * 10 + d <= limit) by (nonlinear_arith)
                    requires
                        v <= (limit - d) / 10,
                        d <= limit,
                ;
                v = v * 10 + d;
            }
        } else {
            assert(digits_value(cur) > limit) by (nonlinear_arith)
                requires
                    digits_value(cur) == digits_value(pre) * 10 + d,
                    digits_value(pre) > limit,
            ;
        }
        i += 1;
    }
    proof {
        assert(s@.subrange(start as int, s.len() as int) == body);
        assert forall|j: int| 0 <= j < body.len() implies is_digit(body[j]) by {
            assert(body[j] == s@[j + start]);
        }
        assert(all_digits(body));
        if neg {
            assert(s@[0] == '-');
        } else if start == 1 {
            assert(s@[0] == '+');
        }
    }
    if over {
        return None;
    }
    if neg {
        if v == 0x8000_0000_0000_0000u64 {
            Some(i64::MIN)
        } else {
            Some(-(v as i64))
        }
    } else {
        Some(v as i64)
    }
}


/// The decimal digit `d` (`d < 10`).
pub open spec fn digit_char(d: nat) -> char {
    (('0' as u32) + d) as char
}

/// `n` written in decimal.
pub open spec fn decimal(n: nat) -> Seq<char>
    decreases n,
{
    if n < 10 {
        seq![digit_char(n)]
    } else {
        decimal(n / 10).push(digit_char(n % 10))
    }
}

pub fn digit_of(d: u64) -> (c: char)
    requires
        d < 10,
    ensures
        c == digit_char(d as nat),
{
    let c = if d == 0 {
        '0'
    } else if d == 1 {
        '1'
    } else if d == 2 {
        '2'
    } else if d == 3 {
        '3'
    } else if d == 4 {
        '4'
    } else if d == 5 {
        '5'
    } else if d == 6 {
        '6'
    } else if d == 7 {
        '7'
    } else if d == 8 {
        '8'
    } else {
        '9'
    };
    c
}

/// Appends `n` in decimal to `v`.
pub fn push_decimal(v: &mut Vec<char>, n: u64)
    ensures
        final(v)@ == old(v)@ + decimal(n as nat),
    decreases n,
{
    if n < 10 {
        let c = digit_of(n);
        v.push(c);
        assert(final(v)@ =~= old(v)@ + decimal(n as nat)) by {
            assert(decimal(n as nat) == seq![c]);
        }
    } else {
        push_decimal(v, n / 10);
        let c = digit_of(n % 10);
        v.push(c);
        assert(decimal(n as nat) == decimal((n / 10) as nat).push(c));
        assert(v@ =~= old(v)@ + decimal(n as nat));
    }
}

} // verus!

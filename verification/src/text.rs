//! Text primitives shared by the command parser and the renderers.
//!
//! Every text is modelled by its sequence of characters (`Seq<char>`, the view
//! of `str` and `String`). The functions here state what they compute over that
//! model: trimming, removal of a pattern, splitting into words, joining and
//! decimal numerals.
use vstd::prelude::*;

verus! {

/// The lowercase form of a text, as `str::to_lowercase` computes it: the
/// Unicode `Lowercase` mapping, which may change the number of characters
/// and treats a final capital sigma on its own. It depends on the text alone.
pub uninterp spec fn lowercase(s: Seq<char>) -> Seq<char>;

/// Calls `str::to_lowercase`. The contract only names the result; nothing is
/// claimed about which characters it holds.
#[verifier::external_body]
pub(crate) fn to_lowercase(s: &str) -> (r: String)
    ensures
        r@ == lowercase(s@),
{
    s.to_lowercase()
}

/// Calls `String::push`, which appends one character to the end of the string.
#[verifier::external_body]
pub(crate) fn push_char(s: &mut String, c: char)
    ensures
        final(s)@ == old(s)@.push(c),
{
    s.push(c)
}

/// The characters that separate words: the code points with the Unicode
/// property `White_Space`.
pub open spec fn white_space(c: char) -> bool {
    let n = c as int;
    ||| 0x09 <= n <= 0x0D
    ||| n == 0x20
    ||| n == 0x85
    ||| n == 0xA0
    ||| n == 0x1680
    ||| 0x2000 <= n <= 0x200A
    ||| n == 0x2028
    ||| n == 0x2029
    ||| n == 0x202F
    ||| n == 0x205F
    ||| n == 0x3000
}

/// Whether `c` separates words.
pub fn is_whitespace(c: char) -> (r: bool)
    ensures
        r == white_space(c),
{
    let n: u32 = c as u32;
    (0x09 <= n && n <= 0x0D) || n == 0x20 || n == 0x85 || n == 0xA0 || n == 0x1680 || (0x2000 <= n
        && n <= 0x200A) || n == 0x2028 || n == 0x2029 || n == 0x202F || n == 0x205F || n == 0x3000
}

/// The characters of `s`, in order.
pub fn to_chars(s: &str) -> (v: Vec<char>)
    ensures
        v@ == s@,
{
    let mut v: Vec<char> = Vec::new();
    for c in it: s.chars()
        invariant
            v@ == it.seq().take(it.index() as int),
            it.seq() == s@,
    {
        v.push(c);
    }
    v
}

/// The string made of the characters `v[from..to]`.
pub fn from_chars(v: &Vec<char>, from: usize, to: usize) -> (s: String)
    requires
        from <= to <= v@.len(),
    ensures
        s@ == v@.subrange(from as int, to as int),
{
    let mut s = String::new();
    let mut i: usize = from;
    while i < to
        invariant
            from <= i <= to <= v@.len(),
            s@ == v@.subrange(from as int, i as int),
        decreases to - i,
    {
        push_char(&mut s, v[i]);
        i += 1;
    }
    s
}

/// Whether `a` and `b` hold the same characters.
pub fn same_text(a: &str, b: &str) -> (r: bool)
    ensures
        r == (a@ == b@),
{
    let x = to_chars(a);
    let y = to_chars(b);
    if x.len() != y.len() {
        return false;
    }
    let mut i: usize = 0;
    while i < x.len()
        invariant
            x@ == a@,
            y@ == b@,
            x@.len() == y@.len(),
            i <= x@.len(),
            forall|j: int| 0 <= j < i ==> x@[j] == y@[j],
        decreases x@.len() - i,
    {
        if x[i] != y[i] {
            return false;
        }
        i += 1;
    }
    assert(x@ =~= y@);
    true
}

/// `s` without its leading separators.
pub open spec fn trim_start(s: Seq<char>) -> Seq<char>
    decreases s.len(),
{
    if s.len() > 0 && white_space(s[0]) {
        trim_start(s.skip(1))
    } else {
        s
    }
}

/// `s` without its trailing separators.
pub open spec fn trim_end(s: Seq<char>) -> Seq<char>
    decreases s.len(),
{
    if s.len() > 0 && white_space(s.last()) {
        trim_end(s.drop_last())
    } else {
        s
    }
}

/// `s` without its leading and trailing separators.
pub open spec fn trim(s: Seq<char>) -> Seq<char> {
    trim_end(trim_start(s))
}

/// `trim_start` drops exactly the separators before the first other character.
pub proof fn lemma_trim_start(s: Seq<char>, k: int)
    requires
        0 <= k <= s.len(),
        forall|j: int| 0 <= j < k ==> white_space(s[j]),
        k == s.len() || !white_space(s[k]),
    ensures
        trim_start(s) == s.skip(k),
    decreases k,
{
    if k > 0 {
        lemma_trim_start(s.skip(1), k - 1);
    }
}

/// `trim_end` drops exactly the separators after the last other character.
pub proof fn lemma_trim_end(s: Seq<char>, k: int)
    requires
        0 <= k <= s.len(),
        forall|j: int| k <= j < s.len() ==> white_space(s[j]),
        k == 0 || !white_space(s[k - 1]),
    ensures
        trim_end(s) == s.take(k),
    decreases s.len() - k,
{
    if k < s.len() {
        lemma_trim_end(s.drop_last(), k);
    }
}

/// The characters of `s` between its leading and its trailing separators.
pub fn trim_chars(s: &Vec<char>) -> (r: Vec<char>)
    ensures
        r@ == trim(s@),
{
    let n = s.len();
    let mut start: usize = 0;
    while start < n && is_whitespace(s[start])
        invariant
            n == s@.len(),
            start <= n,
            forall|j: int| 0 <= j < start ==> white_space(s@[j]),
        decreases n - start,
    {
        start += 1;
    }
    let mut end: usize = n;
    while end > start && is_whitespace(s[end - 1])
        invariant
            n == s@.len(),
            start <= end <= n,
            forall|j: int| end <= j < n ==> white_space(s@[j]),
        decreases end,
    {
        end -= 1;
    }
    proof {
        lemma_trim_start(s@, start as int);
        let t = s@.skip(start as int);
        lemma_trim_end(t, end - start);
    }
    let mut r: Vec<char> = Vec::new();
    let mut i: usize = start;
    while i < end
        invariant
            start <= i <= end <= s@.len(),
            r@ == s@.subrange(start as int, i as int),
        decreases end - i,
    {
        r.push(s[i]);
        i += 1;
    }
    r
}

/// Whether `s` begins with the characters of `pat`.
pub open spec fn starts_with(s: Seq<char>, pat: Seq<char>) -> bool {
    pat.len() <= s.len() && s.take(pat.len() as int) == pat
}

/// `s` after every occurrence of `pat` has been taken out, scanning from the
/// left; what is left over is not scanned again.
pub open spec fn without(s: Seq<char>, pat: Seq<char>) -> Seq<char>
    decreases s.len(),
{
    if pat.len() == 0 || s.len() == 0 {
        s
    } else if starts_with(s, pat) {
        without(s.skip(pat.len() as int), pat)
    } else {
        seq![s[0]] + without(s.skip(1), pat)
    }
}

/// Whether `pat` occurs in `s` at position `at`.
fn occurs_at(s: &Vec<char>, at: usize, pat: &Vec<char>) -> (r: bool)
    requires
        at <= s@.len(),
    ensures
        r == starts_with(s@.skip(at as int), pat@),
{
    let m = pat.len();
    let n = s.len();
    if n - at < m {
        return false;
    }
    let ghost rest = s@.skip(at as int);
    let mut j: usize = 0;
    while j < m
        invariant
            m == pat@.len(),
            n == s@.len(),
            at + m <= n,
            rest == s@.skip(at as int),
            j <= m,
            forall|k: int| 0 <= k < j ==> rest[k] == pat@[k],
        decreases m - j,
    {
        if s[at + j] != pat[j] {
            return false;
        }
        j += 1;
    }
    assert(rest.take(m as int) =~= pat@);
    true
}

/// The characters of `s` with every occurrence of `pat` taken out.
pub fn remove_all(s: &Vec<char>, pat: &Vec<char>) -> (r: Vec<char>)
    ensures
        r@ == without(s@, pat@),
{
    let n = s.len();
    let m = pat.len();
    let mut r: Vec<char> = Vec::new();
    let mut i: usize = 0;
    assert(r@ + without(s@.skip(0), pat@) =~= without(s@, pat@)) by {
        assert(s@.skip(0) =~= s@);
    }
    while i < n
        invariant
            n == s@.len(),
            m == pat@.len(),
            i <= n,
            r@ + without(s@.skip(i as int), pat@) == without(s@, pat@),
        decreases n - i,
    {
        let ghost rest = s@.skip(i as int);
        if m > 0 && occurs_at(s, i, pat) {
            assert(rest.skip(m as int) =~= s@.skip(i + m));
            i += m;
        } else {
            assert(rest.skip(1) =~= s@.skip(i + 1));
            r.push(s[i]);
            i += 1;
        }
    }
    r
}

/// The last word of `s`: its longest ending without a separator.
pub open spec fn last_word(s: Seq<char>) -> Seq<char>
    decreases s.len(),
{
    if s.len() == 0 || white_space(s.last()) {
        Seq::empty()
    } else {
        last_word(s.drop_last()).push(s.last())
    }
}

/// The words of `s`: its maximal runs of characters that are no separators,
/// from left to right.
pub open spec fn words(s: Seq<char>) -> Seq<Seq<char>>
    decreases s.len(),
{
    if s.len() == 0 {
        Seq::empty()
    } else if white_space(s.last()) {
        words(s.drop_last())
    } else {
        proof {
            lemma_last_word_len(s);
        }
        words(s.take(s.len() - last_word(s).len())).push(last_word(s))
    }
}

/// The last word of `s` is no longer than `s`, and empty only where `s` is
/// empty or ends with a separator.
pub proof fn lemma_last_word_len(s: Seq<char>)
    ensures
        last_word(s).len() <= s.len(),
        s.len() > 0 && !white_space(s.last()) ==> last_word(s).len() > 0,
    decreases s.len(),
{
    if s.len() > 0 && !white_space(s.last()) {
        lemma_last_word_len(s.drop_last());
    }
}

/// A run without separators that begins at the start of `s` or right after a
/// separator, and ends where `s` ends, is the last word of `s`.
pub proof fn lemma_last_word_is(s: Seq<char>, start: int)
    requires
        0 <= start <= s.len(),
        forall|j: int| start <= j < s.len() ==> !white_space(s[j]),
        start == 0 || white_space(s[start - 1]),
    ensures
        last_word(s) == s.skip(start),
    decreases s.len() - start,
{
    if start < s.len() {
        lemma_last_word_is(s.drop_last(), start);
    }
}

/// The views of the strings in `v`.
pub open spec fn views(v: Seq<String>) -> Seq<Seq<char>> {
    Seq::new(v.len(), |i: int| v[i]@)
}

/// Splits `s` into its words.
pub fn split_words(s: &Vec<char>) -> (r: Vec<String>)
    ensures
        views(r@) == words(s@),
{
    let n = s.len();
    let mut r: Vec<String> = Vec::new();
    let mut i: usize = 0;
    while i < n
        invariant
            n == s@.len(),
            i <= n,
            views(r@) == words(s@.take(i as int)),
            i == 0 || i == n || white_space(s@[i - 1]),
        decreases n - i,
    {
        if is_whitespace(s[i]) {
            assert(s@.take(i + 1).drop_last() =~= s@.take(i as int));
            i += 1;
        } else {
            let start = i;
            while i < n && !is_whitespace(s[i])
                invariant
                    n == s@.len(),
                    start <= i <= n,
                    forall|j: int| start <= j < i ==> !white_space(s@[j]),
                decreases n - i,
            {
                i += 1;
            }
            let w = from_chars(s, start, i);
            proof {
                let t = s@.take(i as int);
                lemma_last_word_is(t, start as int);
                assert(t.skip(start as int) =~= s@.subrange(start as int, i as int));
                assert(t.take(t.len() - last_word(t).len()) =~= s@.take(start as int));
            }
            r.push(w);
            assert(views(r@) == words(s@.take(i as int)));
            if i < n {
                assert(s@.take(i + 1).drop_last() =~= s@.take(i as int));
                i += 1;
            }
        }
    }
    assert(s@.take(n as int) =~= s@);
    r
}

/// The texts that the string slices in `v` hold.
pub open spec fn texts(v: Seq<&str>) -> Seq<Seq<char>> {
    Seq::new(v.len(), |i: int| v[i]@)
}

/// The string slices of `v`, one for each string.
pub fn as_slices(v: &Vec<String>) -> (r: Vec<&str>)
    ensures
        texts(r@) == views(v@),
{
    let mut r: Vec<&str> = Vec::new();
    let mut i: usize = 0;
    while i < v.len()
        invariant
            i <= v@.len(),
            r@.len() == i,
            forall|j: int| 0 <= j < i ==> r@[j]@ == v@[j]@,
        decreases v@.len() - i,
    {
        r.push(v[i].as_str());
        i += 1;
    }
    r
}

/// The parts one after the other, with `sep` between each two neighbours.
pub open spec fn joined(parts: Seq<Seq<char>>, sep: Seq<char>) -> Seq<char>
    decreases parts.len(),
{
    if parts.len() == 0 {
        Seq::empty()
    } else if parts.len() == 1 {
        parts[0]
    } else {
        joined(parts.drop_last(), sep) + sep + parts.last()
    }
}

/// Joins the parts with `sep` between each two neighbours.
pub fn join(parts: &[&str], sep: &str) -> (r: String)
    ensures
        r@ == joined(texts(parts@), sep@),
{
    let ghost all = texts(parts@);
    let mut r = String::new();
    let mut i: usize = 0;
    while i < parts.len()
        invariant
            all == texts(parts@),
            i <= parts@.len(),
            r@ == joined(all.take(i as int), sep@),
        decreases parts@.len() - i,
    {
        if i > 0 {
            r.append(sep);
        }
        r.append(parts[i]);
        assert(all.take(i + 1).drop_last() =~= all.take(i as int));
        i += 1;
    }
    assert(all.take(parts@.len() as int) =~= all);
    r
}

/// The decimal digit for `d`.
pub open spec fn digit(d: nat) -> char {
    if d == 0 {
        '0'
    } else if d == 1 {
        '1'
    } else if d == 2 {
        '2'
    } else if d == 3 {
        '3'
    } else if d == 4 {
        '4'
    } else if d == 5 {
        '5'
    } else if d == 6 {
        '6'
    } else if d == 7 {
        '7'
    } else if d == 8 {
        '8'
    } else {
        '9'
    }
}

/// The decimal numeral of `n`, without leading zeros.
pub open spec fn decimal(n: nat) -> Seq<char>
    decreases n,
{
    if n < 10 {
        seq![digit(n)]
    } else {
        decimal(n / 10).push(digit(n % 10))
    }
}

/// The decimal digit for `d`.
fn digit_char(d: usize) -> (c: char)
    requires
        d < 10,
    ensures
        c == digit(d as nat),
{
    if d == 0 {
        '0'
    } else if d == 1 {
        '1'
    } else if d == 2 {
        '2'
    } else if d == 3 {
        '3'
    } else if d == 4 {
        '4'
    } else if d == 5 {
        '5'
    } else if d == 6 {
        '6'
    } else if d == 7 {
        '7'
    } else if d == 8 {
        '8'
    } else {
        '9'
    }
}

/// The decimal numeral of `n`.
pub fn decimal_string(n: usize) -> (s: String)
    ensures
        s@ == decimal(n as nat),
    decreases n,
{
    if n < 10 {
        let mut s = String::new();
        push_char(&mut s, digit_char(n));
        s
    } else {
        let mut s = decimal_string(n / 10);
        push_char(&mut s, digit_char(n % 10));
        s
    }
}

/// Where `c` first occurs in `s`; the length of `s` where it does not occur.
pub open spec fn first_index(s: Seq<char>, c: char) -> int
    decreases s.len(),
{
    if s.len() == 0 || s[0] == c {
        0
    } else {
        1 + first_index(s.skip(1), c)
    }
}

/// `first_index` is the position before which `c` does not occur and at
/// which it does, or the length.
pub proof fn lemma_first_index(s: Seq<char>, c: char, k: int)
    requires
        0 <= k <= s.len(),
        forall|j: int| 0 <= j < k ==> s[j] != c,
        k == s.len() || s[k] == c,
    ensures
        first_index(s, c) == k,
    decreases k,
{
    if k > 0 {
        lemma_first_index(s.skip(1), c, k - 1);
    }
}

/// Where `c` first occurs in `s`; the length of `s` where it does not occur.
pub fn find_first(s: &Vec<char>, c: char) -> (k: usize)
    ensures
        k == first_index(s@, c),
        k <= s@.len(),
{
    let mut k: usize = 0;
    while k < s.len() && s[k] != c
        invariant
            k <= s@.len(),
            forall|j: int| 0 <= j < k ==> s@[j] != c,
        decreases s@.len() - k,
    {
        k += 1;
    }
    proof {
        lemma_first_index(s@, c, k as int);
    }
    k
}

/// A character that does not occur in the pattern parts the text: on each
/// side of it the occurrences of the pattern are taken out as if the other
/// side were not there.
pub proof fn lemma_without_split(a: Seq<char>, w: char, b: Seq<char>, pat: Seq<char>)
    requires
        !pat.contains(w),
    ensures
        without(a + seq![w] + b, pat) == without(a, pat) + seq![w] + without(b, pat),
    decreases a.len(),
{
    let x = a + seq![w] + b;
    let m = pat.len() as int;
    if m == 0 {
        // without a pattern nothing is taken out
    } else if a.len() == 0 {
        // the pattern cannot begin with `w`
        if starts_with(x, pat) {
            assert(x.take(m)[0] == pat[0]);
        }
        assert(x.skip(1) =~= b);
    } else if starts_with(x, pat) {
        // the occurrence cannot reach `w`, so it lies in `a`
        if a.len() < m {
            assert(x.take(m)[a.len() as int] == pat[a.len() as int]);
        }
        assert(a.take(m) =~= x.take(m));
        assert(x.skip(m) =~= a.skip(m) + seq![w] + b);
        lemma_without_split(a.skip(m), w, b, pat);
    } else {
        if starts_with(a, pat) {
            assert(x.take(m) =~= a.take(m));
        }
        assert(x.skip(1) =~= a.skip(1) + seq![w] + b);
        lemma_without_split(a.skip(1), w, b, pat);
    }
}

/// A text in which the first character of the pattern does not occur stays
/// as it is in front of any other text.
pub proof fn lemma_without_prefix(a: Seq<char>, b: Seq<char>, pat: Seq<char>)
    requires
        pat.len() > 0,
        !a.contains(pat[0]),
    ensures
        without(a + b, pat) == a + without(b, pat),
    decreases a.len(),
{
    let x = a + b;
    if a.len() > 0 {
        assert(x.skip(1) =~= a.skip(1) + b);
        lemma_without_prefix(a.skip(1), b, pat);
    }
}

/// Behind a separator the last word is that of what follows the separator.
pub proof fn lemma_last_word_split(p: Seq<char>, w: char, q: Seq<char>)
    requires
        white_space(w),
    ensures
        last_word(p + seq![w] + q) == last_word(q),
    decreases q.len(),
{
    let x = p + seq![w] + q;
    if q.len() > 0 {
        assert(x.drop_last() =~= p + seq![w] + q.drop_last());
        lemma_last_word_split(p, w, q.drop_last());
    }
}

/// A separator parts the text: its words are those before the separator,
/// then those behind it.
pub proof fn lemma_words_split(p: Seq<char>, w: char, q: Seq<char>)
    requires
        white_space(w),
    ensures
        words(p + seq![w] + q) == words(p) + words(q),
    decreases q.len(),
{
    let x = p + seq![w] + q;
    if q.len() == 0 {
        assert(x.drop_last() =~= p);
    } else if white_space(q.last()) {
        assert(x.drop_last() =~= p + seq![w] + q.drop_last());
        lemma_words_split(p, w, q.drop_last());
    } else {
        lemma_last_word_split(p, w, q);
        lemma_last_word_len(q);
        let k = q.len() - last_word(q).len();
        assert(x.take(x.len() - last_word(x).len()) =~= p + seq![w] + q.take(k));
        lemma_words_split(p, w, q.take(k));
    }
}

} // verus!

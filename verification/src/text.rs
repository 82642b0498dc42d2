//! Character-level helpers shared by the planner, the registry and the router:
//! substring search, prefix tests, decimal rendering and parsing, and case folding.
use vstd::prelude::*;
use vstd::string::*;

verus! {

/// `needle` occurs somewhere in `hay` as a contiguous run of characters.
pub open spec fn seq_contains(hay: Seq<char>, needle: Seq<char>) -> bool {
    exists|i: int| 0 <= i && i + needle.len() <= hay.len() && #[trigger] hay.subrange(i, i + needle.len()) == needle
}

/// `prefix` is an initial segment of `s`.
pub open spec fn seq_starts_with(s: Seq<char>, prefix: Seq<char>) -> bool {
    prefix.len() <= s.len() && s.subrange(0, prefix.len() as int) == prefix
}

/// The character of a decimal digit.
pub open spec fn digit_char(d: nat) -> char {
    if d == 0 { '0' }
    else if d == 1 { '1' }
    else if d == 2 { '2' }
    else if d == 3 { '3' }
    else if d == 4 { '4' }
    else if d == 5 { '5' }
    else if d == 6 { '6' }
    else if d == 7 { '7' }
    else if d == 8 { '8' }
    else { '9' }
}

/// The decimal rendering of `n`, without sign or leading zeros (as `Display` writes it).
pub open spec fn decimal(n: nat) -> Seq<char>
    decreases n,
{
    if n < 10 {
        seq![digit_char(n)]
    } else {
        decimal(n / 10).push(digit_char(n % 10))
    }
}

/// The value of an ASCII digit character, if it is one.
pub open spec fn digit_value(c: char) -> Option<nat> {
    if '0' <= c && c <= '9' {
        Some((c as nat - '0' as nat) as nat)
    } else {
        None
    }
}

/// All characters of `s` are ASCII digits.
pub open spec fn all_digits(s: Seq<char>) -> bool {
    forall|i: int| 0 <= i < s.len() ==> (#[trigger] digit_value(s[i])) is Some
}

/// The number written by a sequence of ASCII digits (most significant first).
pub open spec fn digits_value(s: Seq<char>) -> nat
    decreases s.len(),
{
    if s.len() == 0 {
        0
    } else {
        digits_value(s.drop_last()) * 10 + match digit_value(s.last()) {
            Some(d) => d,
            None => 0,
        }
    }
}

/// What `str::parse::<usize>` accepts: an optional `+`, then one or more ASCII digits,
/// whose value fits in `usize`.
pub open spec fn parse_usize_spec(s: Seq<char>) -> Option<usize> {
    let body = if s.len() > 0 && s[0] == '+' { s.subrange(1, s.len() as int) } else { s };
    if body.len() > 0 && all_digits(body) && digits_value(body) <= usize::MAX {
        Some(digits_value(body) as usize)
    } else {
        None
    }
}

/// What `str::to_lowercase` returns for a string with the given characters.
pub uninterp spec fn lowercase(s: Seq<char>) -> Seq<char>;

/// Every character is ASCII.
pub open spec fn is_ascii_text(s: Seq<char>) -> bool {
    forall|i: int| 0 <= i < s.len() ==> (#[trigger] s[i] as u32) < 128
}

/// An ASCII capital letter in lower case; any other character as it is.
pub open spec fn ascii_lower_char(c: char) -> char {
    if 65 <= (c as u32) <= 90 { ((c as u32) + 32) as char } else { c }
}

/// An ASCII small letter in upper case; any other character as it is.
pub open spec fn ascii_upper_char(c: char) -> char {
    if 97 <= (c as u32) <= 122 { ((c as u32) - 32) as char } else { c }
}

/// The text with its ASCII letters in lower case.
pub open spec fn ascii_lowercase(s: Seq<char>) -> Seq<char> {
    s.map_values(|c: char| ascii_lower_char(c))
}

/// The text with its ASCII letters in upper case (what `str::to_ascii_uppercase` gives).
pub open spec fn ascii_uppercase(s: Seq<char>) -> Seq<char> {
    s.map_values(|c: char| ascii_upper_char(c))
}

/// Calls `str::to_lowercase`. Its result is the Unicode lowercase mapping of the string, fixed
/// by the standard library's tables (character by character, except that a capital sigma is
/// mapped by its context at the end of a word); the contract names it (`lowercase`) and does
/// not restate the tables, but states the part of them that covers ASCII text: there only the
/// capital letters change, each to its small letter.
#[verifier::external_body]
pub(crate) fn to_lowercase(s: &str) -> (r: String)
    ensures
        r@ == lowercase(s@),
        is_ascii_text(s@) ==> r@ == ascii_lowercase(s@),
{
    s.to_lowercase()
}

/// The characters of `s`, in order.
pub fn chars_of(s: &str) -> (v: Vec<char>)
    ensures
        v@ == s@,
{
    let n = s.unicode_len();
    let mut v: Vec<char> = Vec::new();
    let mut i: usize = 0;
    while i < n
        invariant
            n == s@.len(),
            i <= n,
            v@ == s@.subrange(0, i as int),
        decreases n - i,
    {
        v.push(s.get_char(i));
        i = i + 1;
    }
    v
}

/// Whether `a[start..start + b.len()]` equals `b`.
fn matches_at(a: &Vec<char>, start: usize, b: &Vec<char>) -> (r: bool)
    requires
        start + b@.len() <= a@.len(),
    ensures
        r == (a@.subrange(start as int, start + b@.len()) == b@),
{
    let alen = a.len();
    let blen = b.len();
    let mut j: usize = 0;
    while j < blen
        invariant
            alen == a@.len(),
            blen == b@.len(),
            start + b@.len() <= a@.len(),
            j <= b@.len(),
            forall|k: int| 0 <= k < j ==> a@[start + k] == b@[k],
        decreases b@.len() - j,
    {
        if a[start + j] != b[j] {
            assert(a@.subrange(start as int, start + b@.len())[j as int] != b@[j as int]);
            return false;
        }
        j = j + 1;
    }
    assert(a@.subrange(start as int, start + b@.len()) =~= b@);
    true
}

/// `needle` occurs in `hay`.
pub fn seq_contains_exec(hay: &Vec<char>, needle: &Vec<char>) -> (r: bool)
    ensures
        r == seq_contains(hay@, needle@),
{
    if needle.len() > hay.len() {
        return false;
    }
    let last = hay.len() - needle.len();
    let mut i: usize = 0;
    loop
        invariant
            last + needle@.len() == hay@.len(),
            i <= last,
            forall|k: int| 0 <= k < i ==> #[trigger] hay@.subrange(k, k + needle@.len()) != needle@,
        decreases last - i,
    {
        if matches_at(hay, i, needle) {
            return true;
        }
        if i == last {
            return false;
        }
        i = i + 1;
    }
}

/// Whether `needle` occurs in `hay` (the behaviour of `str::contains` with a `&str` pattern).
pub fn str_contains(hay: &str, needle: &str) -> (r: bool)
    ensures
        r == seq_contains(hay@, needle@),
{
    let h = chars_of(hay);
    let n = chars_of(needle);
    seq_contains_exec(&h, &n)
}

/// Whether `s` starts with `prefix`.
pub fn str_starts_with(s: &str, prefix: &str) -> (r: bool)
    ensures
        r == seq_starts_with(s@, prefix@),
{
    let a = chars_of(s);
    let b = chars_of(prefix);
    if b.len() > a.len() {
        return false;
    }
    matches_at(&a, 0, &b)
}

/// Whether two strings hold the same characters.
pub fn str_eq(a: &str, b: &str) -> (r: bool)
    ensures
        r == (a@ == b@),
{
    let x = chars_of(a);
    let y = chars_of(b);
    if x.len() != y.len() {
        return false;
    }
    let r = matches_at(&x, 0, &y);
    assert(x@.subrange(0, y@.len() as int) =~= x@);
    r
}

/// The one-character string of a decimal digit.
fn digit_str(d: usize) -> (s: &'static str)
    requires
        d < 10,
    ensures
        s@ == seq![digit_char(d as nat)],
{
    if d == 0 {
        proof { reveal_strlit("0"); }
        "0"
    } else if d == 1 {
        proof { reveal_strlit("1"); }
        "1"
    } else if d == 2 {
        proof { reveal_strlit("2"); }
        "2"
    } else if d == 3 {
        proof { reveal_strlit("3"); }
        "3"
    } else if d == 4 {
        proof { reveal_strlit("4"); }
        "4"
    } else if d == 5 {
        proof { reveal_strlit("5"); }
        "5"
    } else if d == 6 {
        proof { reveal_strlit("6"); }
        "6"
    } else if d == 7 {
        proof { reveal_strlit("7"); }
        "7"
    } else if d == 8 {
        proof { reveal_strlit("8"); }
        "8"
    } else {
        proof { reveal_strlit("9"); }
        "9"
    }
}

/// The decimal rendering of `n` (what `n.to_string()` gives).
pub fn usize_to_decimal(n: usize) -> (s: String)
    ensures
        s@ == decimal(n as nat),
    decreases n,
{
    if n < 10 {
        String::from_str(digit_str(n))
    } else {
        let head = usize_to_decimal(n / 10);
        head.concat(digit_str(n % 10))
    }
}

/// Lemma: the value of a digit string extended by one digit.
proof fn lemma_digits_value_push(s: Seq<char>, c: char)
    ensures
        digits_value(s.push(c)) == digits_value(s) * 10 + match digit_value(c) {
            Some(d) => d,
            None => 0,
        },
{
    assert(s.push(c).drop_last() =~= s);
}

/// The value of `c` as a decimal digit.
fn digit_of(c: char) -> (r: Option<usize>)
    ensures
        match r {
            Some(d) => digit_value(c) == Some(d as nat) && d < 10,
            None => digit_value(c) is None,
        },
{
    if c >= '0' && c <= '9' {
        Some(((c as u32) - ('0' as u32)) as usize)
    } else {
        None
    }
}

/// Parses an unsigned decimal number as `str::parse::<usize>` does: an optional leading `+`
/// followed by at least one ASCII digit, with no overflow.
pub fn parse_usize(s: &Vec<char>) -> (r: Option<usize>)
    ensures
        r == parse_usize_spec(s@),
{
    let start: usize = if s.len() > 0 && s[0] == '+' { 1 } else { 0 };
    let ghost body = if s@.len() > 0 && s@[0] == '+' { s@.subrange(1, s@.len() as int) } else { s@ };
    assert(body =~= s@.subrange(start as int, s@.len() as int));
    if start >= s.len() {
        return None;
    }
    let mut value: usize = 0;
    let mut i: usize = start;
    while i < s.len()
        invariant
            start <= i <= s@.len(),
            body == (if s@.len() > 0 && s@[0] == '+' { s@.subrange(1, s@.len() as int) } else { s@ }),
            body =~= s@.subrange(start as int, s@.len() as int),
            all_digits(s@.subrange(start as int, i as int)),
            value as nat == digits_value(s@.subrange(start as int, i as int)),
        decreases s@.len() - i,
    {
        let c = s[i];
        let ghost prefix = s@.subrange(start as int, i as int);
        assert(s@.subrange(start as int, i + 1) =~= prefix.push(c));
        proof { lemma_digits_value_push(prefix, c); }
        let dv = digit_of(c);
        if dv.is_none() {
            assert(body[i - start] == c);
            assert(digit_value(body[i - start]) is None);
            assert(!all_digits(body));
            return None;
        }
        let d: usize = dv.unwrap();
        if value > (usize::MAX - d) / 10 {
            proof {
                lemma_value_grows(body, (i - start + 1) as int);
                assert(body.subrange(0, (i - start + 1) as int) =~= prefix.push(c));
            }
            return None;
        }
        assert(value * 10 + d <= usize::MAX) by (nonlinear_arith)
            requires value <= (usize::MAX - d) / 10, d < 10;
        value = value * 10 + d;
        i = i + 1;
        assert(all_digits(s@.subrange(start as int, i as int)));
    }
    Some(value)
}

/// Lemma: a digit string is worth at least as much as any of its prefixes.
proof fn lemma_value_grows(s: Seq<char>, k: int)
    requires
        0 <= k <= s.len(),
    ensures
        digits_value(s) >= digits_value(s.subrange(0, k)),
    decreases s.len() - k,
{
    if k < s.len() {
        lemma_value_grows(s, k + 1);
        let p = s.subrange(0, k);
        assert(s.subrange(0, k + 1) =~= p.push(s[k]));
        lemma_digits_value_push(p, s[k]);
    } else {
        assert(s.subrange(0, k) =~= s);
    }
}

/// Lexicographic order of character sequences, by code point (the order of `String`'s `Ord`,
/// which compares UTF-8 bytes).
pub open spec fn lex_le(a: Seq<char>, b: Seq<char>) -> bool
    decreases a.len(),
{
    if a.len() == 0 {
        true
    } else if b.len() == 0 {
        false
    } else if a[0] != b[0] {
        a[0] < b[0]
    } else {
        lex_le(a.drop_first(), b.drop_first())
    }
}

/// Lemma: the lexicographic order is total.
pub proof fn lemma_lex_total(a: Seq<char>, b: Seq<char>)
    ensures
        lex_le(a, b) || lex_le(b, a),
    decreases a.len(),
{
    if a.len() > 0 && b.len() > 0 && a[0] == b[0] {
        lemma_lex_total(a.drop_first(), b.drop_first());
    }
}

/// Lemma: the lexicographic order is transitive.
pub proof fn lemma_lex_trans(a: Seq<char>, b: Seq<char>, c: Seq<char>)
    requires
        lex_le(a, b),
        lex_le(b, c),
    ensures
        lex_le(a, c),
    decreases a.len(),
{
    if a.len() > 0 && b.len() > 0 && c.len() > 0 && a[0] == b[0] && b[0] == c[0] {
        lemma_lex_trans(a.drop_first(), b.drop_first(), c.drop_first());
    }
}

/// Whether `a` comes no later than `b` in lexicographic order.
pub fn str_lex_le(a: &str, b: &str) -> (r: bool)
    ensures
        r == lex_le(a@, b@),
{
    let x = chars_of(a);
    let y = chars_of(b);
    let mut i: usize = 0;
    assert(x@.subrange(0, x@.len() as int) =~= x@);
    assert(y@.subrange(0, y@.len() as int) =~= y@);
    while i < x.len() && i < y.len()
        invariant
            i <= x@.len(),
            i <= y@.len(),
            forall|k: int| 0 <= k < i ==> x@[k] == y@[k],
            lex_le(a@, b@) == lex_le(x@.subrange(i as int, x@.len() as int), y@.subrange(i as int, y@.len() as int)),
        decreases x@.len() - i,
    {
        proof {
            let xs = x@.subrange(i as int, x@.len() as int);
            let ys = y@.subrange(i as int, y@.len() as int);
            assert(xs.drop_first() =~= x@.subrange(i + 1, x@.len() as int));
            assert(ys.drop_first() =~= y@.subrange(i + 1, y@.len() as int));
        }
        if x[i] != y[i] {
            return x[i] < y[i];
        }
        i = i + 1;
    }
    proof {
        assert(x@.subrange(0, x@.len() as int) =~= x@);
        assert(y@.subrange(0, y@.len() as int) =~= y@);
    }
    i == x.len()
}

/// `suffix` is a final segment of `s`.
pub open spec fn seq_ends_with(s: Seq<char>, suffix: Seq<char>) -> bool {
    suffix.len() <= s.len() && s.subrange(s.len() - suffix.len(), s.len() as int) == suffix
}

/// Whether `s` ends with `suffix`.
pub fn str_ends_with(s: &str, suffix: &str) -> (r: bool)
    ensures
        r == seq_ends_with(s@, suffix@),
{
    let a = chars_of(s);
    let b = chars_of(suffix);
    if b.len() > a.len() {
        return false;
    }
    matches_at(&a, a.len() - b.len(), &b)
}

/// `s` with every `from` character replaced by the string `to`.
pub open spec fn replace_char(s: Seq<char>, from: char, to: Seq<char>) -> Seq<char>
    decreases s.len(),
{
    if s.len() == 0 {
        Seq::empty()
    } else {
        replace_char(s.drop_last(), from, to) + if s.last() == from { to } else { seq![s.last()] }
    }
}

/// `s` with every `from` character replaced by `to` (what `str::replace` does with a
/// one-character pattern).
pub fn str_replace_char(s: &str, from: char, to: &str) -> (r: String)
    ensures
        r@ == replace_char(s@, from, to@),
{
    let n = s.unicode_len();
    let mut out = String::new();
    let mut i: usize = 0;
    while i < n
        invariant
            n == s@.len(),
            i <= n,
            out@ == replace_char(s@.subrange(0, i as int), from, to@),
        decreases n - i,
    {
        let c = s.get_char(i);
        proof {
            assert(s@.subrange(0, i + 1).drop_last() =~= s@.subrange(0, i as int));
        }
        if c == from {
            out.append(to);
        } else {
            let piece = s.substring_char(i, i + 1);
            assert(piece@ =~= seq![c]);
            out.append(piece);
        }
        i = i + 1;
    }
    assert(s@.subrange(0, n as int) =~= s@);
    out
}

/// Index of the first `c` in `v`, if any.
pub fn find_char(v: &Vec<char>, c: char) -> (r: Option<usize>)
    ensures
        match r {
            Some(i) => i < v@.len() && v@[i as int] == c && forall|j: int| 0 <= j < i ==> v@[j] != c,
            None => !v@.contains(c),
        },
{
    let mut i: usize = 0;
    while i < v.len()
        invariant
            i <= v@.len(),
            forall|j: int| 0 <= j < i ==> v@[j] != c,
        decreases v@.len() - i,
    {
        if v[i] == c {
            return Some(i);
        }
        i = i + 1;
    }
    None
}

/// Index of the last `c` in `v`, if any.
pub fn rfind_char(v: &Vec<char>, c: char) -> (r: Option<usize>)
    ensures
        match r {
            Some(i) => i < v@.len() && v@[i as int] == c && forall|j: int| i < j < v@.len() ==> v@[j] != c,
            None => !v@.contains(c),
        },
{
    let mut i: usize = v.len();
    while i > 0
        invariant
            i <= v@.len(),
            forall|j: int| i <= j < v@.len() ==> v@[j] != c,
        decreases i,
    {
        if v[i - 1] == c {
            return Some(i - 1);
        }
        i = i - 1;
    }
    None
}

/// The pieces of `s` between occurrences of `c` (what `str::split` with a character yields;
/// there is always at least one piece).
pub open spec fn split_char(s: Seq<char>, c: char) -> Seq<Seq<char>>
    decreases s.len(),
{
    if s.len() == 0 {
        seq![Seq::empty()]
    } else {
        let prev = split_char(s.drop_last(), c);
        if s.last() == c {
            prev.push(Seq::empty())
        } else {
            prev.update(prev.len() - 1, prev.last().push(s.last()))
        }
    }
}

/// Lemma: `split_char` always yields at least one piece.
pub proof fn lemma_split_nonempty(s: Seq<char>, c: char)
    ensures
        split_char(s, c).len() >= 1,
    decreases s.len(),
{
    if s.len() > 0 {
        lemma_split_nonempty(s.drop_last(), c);
    }
}

/// A line without the `\r` of a `\r\n` ending.
pub open spec fn strip_cr(p: Seq<char>) -> Seq<char> {
    if p.len() > 0 && p.last() == '\r' { p.drop_last() } else { p }
}

/// The lines of `s`, as `str::lines` yields them: split at `\n`, each line that ended in
/// `\n` losing a final `\r`, and no empty last line.
pub open spec fn lines_of(s: Seq<char>) -> Seq<Seq<char>> {
    let p = split_char(s, '\n');
    let body = p.drop_last().map_values(|x: Seq<char>| strip_cr(x));
    if p.last().len() > 0 { body.push(p.last()) } else { body }
}

/// Unicode white space, as `char::is_whitespace` decides it.
pub open spec fn is_white_space(c: char) -> bool {
    ||| ('\u{9}' <= c && c <= '\u{d}')
    ||| c == ' '
    ||| c == '\u{85}'
    ||| c == '\u{a0}'
    ||| c == '\u{1680}'
    ||| ('\u{2000}' <= c && c <= '\u{200a}')
    ||| c == '\u{2028}'
    ||| c == '\u{2029}'
    ||| c == '\u{202f}'
    ||| c == '\u{205f}'
    ||| c == '\u{3000}'
}

/// `s` without its leading white space.
pub open spec fn trim_start(s: Seq<char>) -> Seq<char>
    decreases s.len(),
{
    if s.len() > 0 && is_white_space(s[0]) { trim_start(s.drop_first()) } else { s }
}

/// `s` without its trailing white space.
pub open spec fn trim_end(s: Seq<char>) -> Seq<char>
    decreases s.len(),
{
    if s.len() > 0 && is_white_space(s.last()) { trim_end(s.drop_last()) } else { s }
}

/// `s` without leading and trailing white space (what `str::trim` gives).
pub open spec fn trim(s: Seq<char>) -> Seq<char> {
    trim_end(trim_start(s))
}

/// Whether `c` is white space (see `is_white_space`).
pub fn is_white_space_exec(c: char) -> (b: bool)
    ensures
        b == is_white_space(c),
{
    ('\u{9}' <= c && c <= '\u{d}') || c == ' ' || c == '\u{85}' || c == '\u{a0}' || c == '\u{1680}' || ('\u{2000}'
        <= c && c <= '\u{200a}') || c == '\u{2028}' || c == '\u{2029}' || c == '\u{202f}' || c == '\u{205f}' || c
        == '\u{3000}'
}

/// The text of a character range.
pub open spec fn range_text(v: Seq<char>, r: (usize, usize)) -> Seq<char> {
    v.subrange(r.0 as int, r.1 as int)
}

/// Each range is ordered and lies within `lo..hi`.
pub open spec fn ranges_within(r: Seq<(usize, usize)>, lo: int, hi: int) -> bool {
    forall|k: int| 0 <= k < r.len() ==> lo <= (#[trigger] r[k]).0 <= r[k].1 <= hi
}

/// The character ranges of the pieces of `v[lo..hi]` between occurrences of `c`.
pub fn split_range(v: &Vec<char>, lo: usize, hi: usize, c: char) -> (r: Vec<(usize, usize)>)
    requires
        lo <= hi <= v@.len(),
    ensures
        ranges_within(r@, lo as int, hi as int),
        r@.map_values(|p: (usize, usize)| range_text(v@, p)) == split_char(v@.subrange(lo as int, hi as int), c),
{
    let mut r: Vec<(usize, usize)> = Vec::new();
    let mut start = lo;
    let mut i = lo;
    assert(v@.subrange(lo as int, lo as int) =~= Seq::<char>::empty());
    assert(r@.map_values(|p: (usize, usize)| range_text(v@, p)).push(range_text(v@, (start, i))) =~= split_char(
        v@.subrange(lo as int, lo as int), c));
    while i < hi
        invariant
            lo <= start <= i <= hi <= v@.len(),
            ranges_within(r@, lo as int, start as int),
            r@.map_values(|p: (usize, usize)| range_text(v@, p)).push(range_text(v@, (start, i))) == split_char(
                v@.subrange(lo as int, i as int), c),
        decreases hi - i,
    {
        let ghost prev = r@.map_values(|p: (usize, usize)| range_text(v@, p));
        let ghost sub = v@.subrange(lo as int, i + 1);
        assert(sub.drop_last() =~= v@.subrange(lo as int, i as int));
        assert(sub.last() == v@[i as int]);
        if v[i] == c {
            r.push((start, i));
            assert(r@.map_values(|p: (usize, usize)| range_text(v@, p)) =~= prev.push(range_text(v@, (start, i))));
            start = i + 1;
            proof {
                assert(range_text(v@, (start, (i + 1) as usize)) =~= Seq::<char>::empty());
            }
        } else {
            proof {
                assert(range_text(v@, (start, (i + 1) as usize)) =~= range_text(v@, (start, i)).push(v@[i as int]));
                assert(prev.push(range_text(v@, (start, (i + 1) as usize))) =~= prev.push(range_text(v@, (start, i))).update(
                    prev.len() as int, range_text(v@, (start, i)).push(v@[i as int])));
            }
        }
        i = i + 1;
    }
    let ghost prev = r@.map_values(|p: (usize, usize)| range_text(v@, p));
    r.push((start, hi));
    assert(r@.map_values(|p: (usize, usize)| range_text(v@, p)) =~= prev.push(range_text(v@, (start, hi))));
    r
}

/// The character ranges of the lines of `v` (see `lines_of`).
pub fn line_ranges(v: &Vec<char>) -> (r: Vec<(usize, usize)>)
    ensures
        ranges_within(r@, 0, v@.len() as int),
        r@.map_values(|p: (usize, usize)| range_text(v@, p)) == lines_of(v@),
{
    let n = v.len();
    let pieces = split_range(v, 0, n, '\n');
    proof {
        assert(v@.subrange(0, n as int) =~= v@);
        lemma_split_nonempty(v@, '\n');
    }
    let ghost p = split_char(v@, '\n');
    let ghost mapped = pieces@.map_values(|q: (usize, usize)| range_text(v@, q));
    assert(mapped.len() == p.len());
    let m = pieces.len();
    let mut r: Vec<(usize, usize)> = Vec::new();
    let mut k: usize = 0;
    while k + 1 < m
        invariant
            m == pieces@.len(),
            m >= 1,
            mapped == p,
            mapped == pieces@.map_values(|q: (usize, usize)| range_text(v@, q)),
            ranges_within(pieces@, 0, v@.len() as int),
            k + 1 <= m,
            ranges_within(r@, 0, v@.len() as int),
            r@.map_values(|q: (usize, usize)| range_text(v@, q)) == p.drop_last().take(k as int).map_values(
                |x: Seq<char>| strip_cr(x)),
        decreases m - k,
    {
        let (a, b) = pieces[k];
        assert(mapped[k as int] == range_text(v@, (a, b)));
        let ghost before = r@.map_values(|q: (usize, usize)| range_text(v@, q));
        if b > a && v[b - 1] == '\r' {
            r.push((a, b - 1));
            assert(range_text(v@, (a, (b - 1) as usize)) =~= range_text(v@, (a, b)).drop_last());
        } else {
            r.push((a, b));
        }
        proof {
            assert(r@.map_values(|q: (usize, usize)| range_text(v@, q)) =~= before.push(strip_cr(p[k as int])));
            assert(p.drop_last().take(k + 1).map_values(|x: Seq<char>| strip_cr(x)) =~= p.drop_last().take(
                k as int).map_values(|x: Seq<char>| strip_cr(x)).push(strip_cr(p[k as int])));
        }
        k = k + 1;
    }
    assert(p.drop_last().take(k as int) =~= p.drop_last());
    let (a, b) = pieces[m - 1];
    assert(mapped[m - 1] == range_text(v@, (a, b)));
    assert(p.last() == p[m - 1]);
    let ghost before = r@.map_values(|q: (usize, usize)| range_text(v@, q));
    if b > a {
        r.push((a, b));
        assert(r@.map_values(|q: (usize, usize)| range_text(v@, q)) =~= before.push(p.last()));
    }
    r
}

/// The range of `v[a..b]` without leading and trailing white space (see `trim`).
pub fn trim_range(v: &Vec<char>, a: usize, b: usize) -> (r: (usize, usize))
    requires
        a <= b <= v@.len(),
    ensures
        a <= r.0 <= r.1 <= b,
        range_text(v@, r) == trim(v@.subrange(a as int, b as int)),
{
    let mut s = a;
    while s < b && is_white_space_exec(v[s])
        invariant
            a <= s <= b <= v@.len(),
            trim_start(v@.subrange(a as int, b as int)) == trim_start(v@.subrange(s as int, b as int)),
        decreases b - s,
    {
        assert(v@.subrange(s as int, b as int).drop_first() =~= v@.subrange(s + 1, b as int));
        s = s + 1;
    }
    assert(trim_start(v@.subrange(s as int, b as int)) == v@.subrange(s as int, b as int));
    let mut e = b;
    while e > s && is_white_space_exec(v[e - 1])
        invariant
            a <= s <= e <= b <= v@.len(),
            trim_end(v@.subrange(s as int, b as int)) == trim_end(v@.subrange(s as int, e as int)),
        decreases e - s,
    {
        assert(v@.subrange(s as int, e as int).drop_last() =~= v@.subrange(s as int, e - 1));
        e = e - 1;
    }
    (s, e)
}

/// A copy of the characters `v[a..b]`.
pub fn copy_range(v: &Vec<char>, a: usize, b: usize) -> (r: Vec<char>)
    requires
        a <= b <= v@.len(),
    ensures
        r@ == v@.subrange(a as int, b as int),
{
    let mut r: Vec<char> = Vec::new();
    let mut i = a;
    while i < b
        invariant
            a <= i <= b <= v@.len(),
            r@ == v@.subrange(a as int, i as int),
        decreases b - i,
    {
        r.push(v[i]);
        i = i + 1;
    }
    r
}

} // verus!

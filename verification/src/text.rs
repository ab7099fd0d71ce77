//! Character-level text helpers shared by the prompt builders and parsers.
//!
//! Every function here works on the `char` sequence of a string (its view).
use vstd::prelude::*;
use vstd::string::*;

verus! {

// ─── Specifications ───────────────────────────────────────────────────────

/// The first `n` characters of `s`, or all of `s` when it is shorter.
pub open spec fn prefix(s: Seq<char>, n: int) -> Seq<char> {
    if n < s.len() {
        s.take(n)
    } else {
        s
    }
}

/// Unicode `White_Space`, the property that `char::is_whitespace` and `str::trim` use.
pub open spec fn is_ws(c: char) -> bool {
    ||| ('\u{9}' <= c && c <= '\u{d}')
    ||| c == ' '
    ||| c == '\u{85}'
    ||| c == '\u{a0}'
    ||| c == '\u{1680}'
    ||| ('\u{2000}' <= c && c <= '\u{200a}')
    ||| c == '\u{2028}'
    ||| c == '\u{2029}'
    ||| c == '\u{202f}'
    ||| c == '\u{205f}'
    ||| c == '\u{3000}'
}

/// `s` without its leading white space.
pub open spec fn trim_start(s: Seq<char>) -> Seq<char>
    decreases s.len(),
{
    if s.len() > 0 && is_ws(s[0]) {
        trim_start(s.drop_first())
    } else {
        s
    }
}

/// `s` without its trailing white space.
pub open spec fn trim_end(s: Seq<char>) -> Seq<char>
    decreases s.len(),
{
    if s.len() > 0 && is_ws(s.last()) {
        trim_end(s.drop_last())
    } else {
        s
    }
}

/// `s` without leading and trailing white space (`str::trim`).
pub open spec fn trim(s: Seq<char>) -> Seq<char> {
    trim_end(trim_start(s))
}

/// Whether every character of `s` is white space.
pub open spec fn all_ws(s: Seq<char>) -> bool {
    forall|i: int| 0 <= i < s.len() ==> is_ws(#[trigger] s[i])
}

pub open spec fn starts_with(s: Seq<char>, p: Seq<char>) -> bool {
    p.len() <= s.len() && s.take(p.len() as int) == p
}

pub open spec fn ends_with(s: Seq<char>, p: Seq<char>) -> bool {
    p.len() <= s.len() && s.skip(s.len() - p.len()) == p
}

/// Whether `p` occurs in `s` at position `i`.
pub open spec fn occurs_at(s: Seq<char>, p: Seq<char>, i: int) -> bool {
    0 <= i && i + p.len() <= s.len() && s.subrange(i, i + p.len()) == p
}

pub open spec fn contains_seq(s: Seq<char>, p: Seq<char>) -> bool {
    exists|i: int| occurs_at(s, p, i)
}

/// Elements of `parts` with `sep` between each two (`[T]::join`).
pub open spec fn join(parts: Seq<Seq<char>>, sep: Seq<char>) -> Seq<char>
    decreases parts.len(),
{
    if parts.len() == 0 {
        Seq::empty()
    } else if parts.len() == 1 {
        parts[0]
    } else {
        join(parts.drop_last(), sep) + sep + parts.last()
    }
}

pub open spec fn digit_char(d: int) -> char {
    if d == 0 { '0' }
    else if d == 1 { '1' }
    else if d == 2 { '2' }
    else if d == 3 { '3' }
    else if d == 4 { '4' }
    else if d == 5 { '5' }
    else if d == 6 { '6' }
    else if d == 7 { '7' }
    else if d == 8 { '8' }
    else { '9' }
}

/// The decimal digits of `n` without leading zeros, as `Display` writes them.
pub open spec fn nat_str(n: nat) -> Seq<char>
    decreases n,
{
    if n < 10 {
        seq![digit_char(n as int)]
    } else {
        nat_str(n / 10).push(digit_char((n % 10) as int))
    }
}

/// `n` padded with zeros on the left to at least `width` digits.
pub open spec fn zero_pad(n: nat, width: nat) -> Seq<char> {
    let digits = nat_str(n);
    if digits.len() < width {
        Seq::new((width - digits.len()) as nat, |i: int| '0') + digits
    } else {
        digits
    }
}

/// The views of a vector of strings.
pub open spec fn views(v: Seq<String>) -> Seq<Seq<char>> {
    v.map_values(|s: String| s@)
}


/// `str::replace` with a non-empty pattern: every non-overlapping occurrence of
/// `p`, found from left to right, replaced by `r`.
pub open spec fn replace_all(s: Seq<char>, p: Seq<char>, r: Seq<char>) -> Seq<char>
    decreases s.len(),
{
    if p.len() == 0 || s.len() < p.len() {
        s
    } else if s.take(p.len() as int) == p {
        r + replace_all(s.skip(p.len() as int), p, r)
    } else {
        seq![s[0]] + replace_all(s.drop_first(), p, r)
    }
}


/// The pieces of `s` between occurrences of `c` (`str::split` with a `char`).
pub open spec fn split_char(s: Seq<char>, c: char) -> Seq<Seq<char>>
    decreases s.len(),
{
    if s.len() == 0 {
        seq![Seq::empty()]
    } else {
        let p = split_char(s.drop_last(), c);
        if s.last() == c {
            p.push(Seq::empty())
        } else {
            p.update(p.len() - 1, p.last().push(s.last()))
        }
    }
}

pub open spec fn is_digit(c: char) -> bool {
    '0' <= c && c <= '9'
}

pub open spec fn all_digits(s: Seq<char>) -> bool {
    forall|i: int| 0 <= i < s.len() ==> is_digit(#[trigger] s[i])
}

/// The number that the decimal digits `s` write.
pub open spec fn digits_value(s: Seq<char>) -> nat
    decreases s.len(),
{
    if s.len() == 0 {
        0
    } else {
        digits_value(s.drop_last()) * 10 + ((s.last() as int) - ('0' as int)) as nat
    }
}

/// `s` without one leading `+`.
pub open spec fn drop_plus(s: Seq<char>) -> Seq<char> {
    if s.len() > 0 && s[0] == '+' {
        s.drop_first()
    } else {
        s
    }
}

/// `s.parse::<u32>()`: an optional `+`, then at least one digit, within range.
pub open spec fn parse_u32_spec(s: Seq<char>) -> Option<u32> {
    let d = drop_plus(s);
    if d.len() > 0 && all_digits(d) && digits_value(d) <= u32::MAX {
        Some(digits_value(d) as u32)
    } else {
        None
    }
}

/// `s.parse::<i32>()`: an optional `+` or `-`, then at least one digit, within range.
pub open spec fn parse_i32_spec(s: Seq<char>) -> Option<i32> {
    if s.len() > 0 && s[0] == '-' {
        let d = s.drop_first();
        if d.len() > 0 && all_digits(d) && digits_value(d) <= 0x8000_0000 {
            Some((-(digits_value(d) as int)) as i32)
        } else {
            None
        }
    } else {
        let d = drop_plus(s);
        if d.len() > 0 && all_digits(d) && digits_value(d) <= i32::MAX {
            Some(digits_value(d) as i32)
        } else {
            None
        }
    }
}


/// The words of `s`: the maximal runs of non-white-space characters (`str::split_whitespace`).
pub open spec fn words(s: Seq<char>) -> Seq<Seq<char>>
    decreases s.len(),
{
    if s.len() == 0 {
        Seq::empty()
    } else {
        let w = words(s.drop_last());
        if is_ws(s.last()) {
            w
        } else if s.len() >= 2 && !is_ws(s[s.len() - 2]) {
            w.update(w.len() - 1, w.last().push(s.last()))
        } else {
            w.push(seq![s.last()])
        }
    }
}

/// The position of the first occurrence of `p` in `s` at or after `i`.
pub open spec fn find_from(s: Seq<char>, p: Seq<char>, i: int) -> Option<int>
    decreases s.len() + 1 - i,
{
    if i < 0 || i + p.len() > s.len() {
        None
    } else if occurs_at(s, p, i) {
        Some(i)
    } else {
        find_from(s, p, i + 1)
    }
}

/// `str::split_once`: the text before and after the first occurrence of `p`.
pub open spec fn split_once(s: Seq<char>, p: Seq<char>) -> Option<(Seq<char>, Seq<char>)> {
    match find_from(s, p, 0) {
        Some(i) => Some((s.take(i), s.skip(i + p.len()))),
        None => None,
    }
}

/// `s` without one trailing carriage return.
pub open spec fn drop_cr(s: Seq<char>) -> Seq<char> {
    if s.len() > 0 && s.last() == '\r' {
        s.drop_last()
    } else {
        s
    }
}

/// The lines of `s` (`str::lines`): the pieces between line feeds, without a
/// final empty piece, each without a trailing carriage return.
pub open spec fn lines(s: Seq<char>) -> Seq<Seq<char>> {
    let pieces = split_char(s, '\n');
    let pieces = if pieces.last().len() == 0 {
        pieces.drop_last()
    } else {
        pieces
    };
    pieces.map_values(|l: Seq<char>| drop_cr(l))
}

/// Lexicographic order of character sequences (the order of `String`s, since
/// UTF-8 keeps the order of code points).
pub open spec fn seq_lt(a: Seq<char>, b: Seq<char>) -> bool
    decreases a.len(),
{
    if a.len() == 0 {
        b.len() > 0
    } else if b.len() == 0 {
        false
    } else if a[0] != b[0] {
        (a[0] as u32) < (b[0] as u32)
    } else {
        seq_lt(a.drop_first(), b.drop_first())
    }
}

/// The number of bytes of the UTF-8 encoding of `c`.
pub open spec fn utf8_width(c: char) -> nat {
    vstd::utf8::encode_scalar(c as u32).len()
}

// ─── Lemmas ───────────────────────────────────────────────────────────────

pub proof fn lemma_trim_start_skip(s: Seq<char>, i: int)
    requires
        0 <= i <= s.len(),
        forall|k: int| 0 <= k < i ==> is_ws(#[trigger] s[k]),
    ensures
        trim_start(s) == trim_start(s.skip(i)),
    decreases i,
{
    if i > 0 {
        assert(is_ws(s[0]));
        lemma_trim_start_skip(s.drop_first(), i - 1);
        assert(s.drop_first().skip(i - 1) =~= s.skip(i));
    } else {
        assert(s.skip(0) =~= s);
    }
}

pub proof fn lemma_trim_end_take(s: Seq<char>, j: int)
    requires
        0 <= j <= s.len(),
        forall|k: int| j <= k < s.len() ==> is_ws(#[trigger] s[k]),
    ensures
        trim_end(s) == trim_end(s.take(j)),
    decreases s.len() - j,
{
    if j < s.len() {
        assert(is_ws(s.last()));
        lemma_trim_end_take(s.drop_last(), j);
        assert(s.drop_last().take(j) =~= s.take(j));
    } else {
        assert(s.take(j) =~= s);
    }
}

pub proof fn lemma_trim_start_shape(s: Seq<char>)
    ensures
        exists|i: int|
            0 <= i <= s.len() && trim_start(s) == s.skip(i) && (forall|k: int|
                0 <= k < i ==> is_ws(#[trigger] s[k])) && (i < s.len() ==> !is_ws(s[i])),
    decreases s.len(),
{
    if s.len() > 0 && is_ws(s[0]) {
        lemma_trim_start_shape(s.drop_first());
        let i = choose|i: int|
            0 <= i <= s.drop_first().len() && trim_start(s.drop_first()) == s.drop_first().skip(i)
                && (forall|k: int| 0 <= k < i ==> is_ws(#[trigger] s.drop_first()[k])) && (i
                < s.drop_first().len() ==> !is_ws(s.drop_first()[i]));
        assert(s.drop_first().skip(i) =~= s.skip(i + 1));
        assert forall|k: int| 0 <= k < i + 1 implies is_ws(#[trigger] s[k]) by {
            if k > 0 {
                assert(s[k] == s.drop_first()[k - 1]);
            }
        }
    } else {
        assert(s.skip(0) =~= s);
    }
}

/// A trimmed sequence is empty exactly when the sequence is all white space.
pub proof fn lemma_trim_empty_iff_all_ws(s: Seq<char>)
    ensures
        (trim(s).len() == 0) <==> all_ws(s),
{
    lemma_trim_start_shape(s);
    let i = choose|i: int|
        0 <= i <= s.len() && trim_start(s) == s.skip(i) && (forall|k: int|
            0 <= k < i ==> is_ws(#[trigger] s[k])) && (i < s.len() ==> !is_ws(s[i]));
    let t = s.skip(i);
    if i < s.len() {
        // trim_end keeps the first (non white space) character
        lemma_trim_end_keeps_non_ws_head(t);
        assert(t[0] == s[i]);
    } else {
        assert(t.len() == 0);
        assert(trim_end(t) =~= t);
    }
}

pub proof fn lemma_trim_end_keeps_non_ws_head(t: Seq<char>)
    requires
        t.len() > 0,
        !is_ws(t[0]),
    ensures
        trim_end(t).len() > 0,
    decreases t.len(),
{
    if is_ws(t.last()) {
        assert(t.len() > 1);
        lemma_trim_end_keeps_non_ws_head(t.drop_last());
    }
}

pub proof fn lemma_join_push(parts: Seq<Seq<char>>, sep: Seq<char>, x: Seq<char>)
    ensures
        join(parts.push(x), sep) == if parts.len() == 0 {
            x
        } else {
            join(parts, sep) + sep + x
        },
{
    let p = parts.push(x);
    assert(p.drop_last() =~= parts);
    if parts.len() == 0 {
        assert(p.len() == 1);
    }
}

/// What occurs in a part of a text occurs in the text.
pub proof fn lemma_contains_trans(a: Seq<char>, b: Seq<char>, c: Seq<char>)
    requires
        contains_seq(a, b),
        contains_seq(b, c),
    ensures
        contains_seq(a, c),
{
    let i = choose|i: int| occurs_at(a, b, i);
    let j = choose|j: int| occurs_at(b, c, j);
    assert(occurs_at(a, c, i + j)) by {
        assert(a.subrange(i + j, i + j + c.len()) =~= b.subrange(j, j + c.len()));
    }
}

/// `y` occurs in `x + y + z`.
pub proof fn lemma_contains_middle(x: Seq<char>, y: Seq<char>, z: Seq<char>)
    ensures
        contains_seq(x + y + z, y),
{
    assert(occurs_at(x + y + z, y, x.len() as int)) by {
        assert((x + y + z).subrange(x.len() as int, (x.len() + y.len()) as int) =~= y);
    }
}

/// Each part of a join occurs in it, at a position that does not depend on
/// the parts after it.
pub proof fn lemma_join_contains(parts: Seq<Seq<char>>, sep: Seq<char>, k: int)
    requires
        0 <= k < parts.len(),
    ensures
        contains_seq(join(parts, sep), parts[k]),
    decreases parts.len(),
{
    let j = join(parts, sep);
    if parts.len() == 1 {
        assert(occurs_at(j, parts[k], 0)) by {
            assert(j.subrange(0, parts[0].len() as int) =~= parts[0]);
        }
    } else if k == parts.len() - 1 {
        let pre = join(parts.drop_last(), sep) + sep;
        assert(j == pre + parts.last());
        assert(occurs_at(j, parts[k], pre.len() as int)) by {
            assert(j.subrange(pre.len() as int, (pre.len() + parts[k].len()) as int) =~= parts[k]);
        }
    } else {
        let q = parts.drop_last();
        lemma_join_contains(q, sep, k);
        assert(q[k] == parts[k]);
        let i = choose|i: int| occurs_at(join(q, sep), parts[k], i);
        let rest = sep + parts.last();
        assert(j =~= join(q, sep) + rest);
        assert(occurs_at(j, parts[k], i)) by {
            assert(j.subrange(i, i + parts[k].len()) =~= join(q, sep).subrange(i, i + parts[k].len()));
        }
    }
}

/// A section `head + join(items, isep)` among the parts of a join: the join
/// holds the head and every item.
pub proof fn lemma_section_contains(
    parts: Seq<Seq<char>>,
    psep: Seq<char>,
    j: int,
    head: Seq<char>,
    items: Seq<Seq<char>>,
    isep: Seq<char>,
)
    requires
        0 <= j < parts.len(),
        parts[j] == head + join(items, isep),
    ensures
        contains_seq(join(parts, psep), head),
        forall|k: int| 0 <= k < items.len() ==> contains_seq(join(parts, psep), #[trigger] items[k]),
{
    let whole = join(parts, psep);
    let e = Seq::<char>::empty();
    lemma_join_contains(parts, psep, j);
    lemma_contains_middle(e, head, join(items, isep));
    assert(e + head + join(items, isep) =~= parts[j]);
    lemma_contains_trans(whole, parts[j], head);
    assert forall|k: int| 0 <= k < items.len() implies contains_seq(whole, #[trigger] items[k]) by {
        lemma_join_contains(items, isep, k);
        lemma_contains_middle(head, join(items, isep), e);
        assert(head + join(items, isep) + e =~= parts[j]);
        lemma_contains_trans(whole, parts[j], join(items, isep));
        lemma_contains_trans(whole, join(items, isep), items[k]);
    }
}

/// A join starts with its first part and ends with its last.
pub proof fn lemma_join_ends(parts: Seq<Seq<char>>, sep: Seq<char>)
    requires
        parts.len() >= 1,
    ensures
        starts_with(join(parts, sep), parts[0]),
        ends_with(join(parts, sep), parts.last()),
    decreases parts.len(),
{
    let j = join(parts, sep);
    if parts.len() == 1 {
        assert(j.take(parts[0].len() as int) =~= parts[0]);
        assert(j.skip(0) =~= j);
    } else {
        let q = parts.drop_last();
        lemma_join_ends(q, sep);
        assert(q[0] == parts[0]);
        assert(j =~= join(q, sep) + (sep + parts.last()));
        assert(j.take(parts[0].len() as int) =~= join(q, sep).take(parts[0].len() as int));
        assert(j.skip(j.len() - parts.last().len()) =~= parts.last());
    }
}

pub proof fn lemma_views_push(v: Seq<String>, s: String)
    ensures
        views(v.push(s)) == views(v).push(s@),
{
    assert(views(v.push(s)) =~= views(v).push(s@));
}


pub proof fn lemma_split_char_nonempty(s: Seq<char>, c: char)
    ensures
        split_char(s, c).len() >= 1,
    decreases s.len(),
{
    if s.len() > 0 {
        lemma_split_char_nonempty(s.drop_last(), c);
    }
}

pub proof fn lemma_digits_value_monotone(s: Seq<char>, k: int)
    requires
        0 <= k <= s.len(),
    ensures
        digits_value(s.take(k)) <= digits_value(s) || !all_digits(s),
    decreases s.len() - k,
{
    if k < s.len() {
        lemma_digits_value_monotone(s.drop_last(), k);
        assert(s.drop_last().take(k) =~= s.take(k));
        if all_digits(s) {
            assert(all_digits(s.drop_last()));
            assert(is_digit(s.last()));
        }
    } else {
        assert(s.take(k) =~= s);
    }
}


pub proof fn lemma_words_nonempty_when_word_char(s: Seq<char>)
    requires
        s.len() >= 1,
        !is_ws(s.last()),
    ensures
        words(s).len() >= 1,
    decreases s.len(),
{
    if s.len() >= 2 && !is_ws(s[s.len() - 2]) {
        lemma_words_nonempty_when_word_char(s.drop_last());
    }
}

pub proof fn lemma_find_from_some(s: Seq<char>, p: Seq<char>, k: int, i: int)
    requires
        find_from(s, p, k) == Some(i),
    ensures
        occurs_at(s, p, i),
        k <= i,
    decreases s.len() + 1 - k,
{
    if !(k < 0 || k + p.len() > s.len()) && !occurs_at(s, p, k) {
        lemma_find_from_some(s, p, k + 1, i);
    }
}

pub proof fn lemma_find_from_none(s: Seq<char>, p: Seq<char>, i: int)
    requires
        0 <= i,
        forall|k: int| i <= k ==> !occurs_at(s, p, k),
    ensures
        find_from(s, p, i) is None,
    decreases s.len() + 1 - i,
{
    if i + p.len() <= s.len() {
        lemma_find_from_none(s, p, i + 1);
    }
}

// ─── Executable helpers ───────────────────────────────────────────────────

/// `char::is_whitespace`.
pub fn is_whitespace(c: char) -> (r: bool)
    ensures
        r == is_ws(c),
{
    ('\u{9}' <= c && c <= '\u{d}') || c == ' ' || c == '\u{85}' || c == '\u{a0}' || c
        == '\u{1680}' || ('\u{2000}' <= c && c <= '\u{200a}') || c == '\u{2028}' || c
        == '\u{2029}' || c == '\u{202f}' || c == '\u{205f}' || c == '\u{3000}'
}

/// The number of characters of `s`.
pub fn char_count(s: &str) -> (n: usize)
    ensures
        n == s@.len(),
{
    s.unicode_len()
}

pub fn new_string() -> (r: String)
    ensures
        r@ == Seq::<char>::empty(),
{
    String::new()
}

pub fn to_owned(s: &str) -> (r: String)
    ensures
        r@ == s@,
{
    String::from_str(s)
}

pub fn copy_string(s: &String) -> (r: String)
    ensures
        r@ == s@,
{
    String::from_str(s.as_str())
}

/// Appends `s` to `buf`.
pub fn push_str(buf: &mut String, s: &str)
    ensures
        final(buf)@ == old(buf)@ + s@,
{
    buf.append(s);
}

/// The character `c` as a string of length one.
pub fn char_string(s: &str, i: usize) -> (r: String)
    requires
        i < s@.len(),
    ensures
        r@ == seq![s@[i as int]],
{
    let _len = s.unicode_len();
    let sub = s.substring_char(i, i + 1);
    assert(sub@ =~= seq![s@[i as int]]);
    String::from_str(sub)
}

/// The first `n` characters of `s` (`s.chars().take(n).collect()`).
pub fn take_chars(s: &str, n: usize) -> (r: String)
    ensures
        r@ == prefix(s@, n as int),
{
    let len = s.unicode_len();
    if n < len {
        String::from_str(s.substring_char(0, n))
    } else {
        let r = String::from_str(s);
        assert(r@ =~= s@);
        r
    }
}

/// The characters of `s` from position `i` on.
pub fn skip_chars<'a>(s: &'a str, i: usize) -> (r: &'a str)
    requires
        i <= s@.len(),
    ensures
        r@ == s@.skip(i as int),
{
    let len = s.unicode_len();
    let r = s.substring_char(i, len);
    assert(r@ =~= s@.skip(i as int));
    r
}

/// The characters of `s` in `[i, j)`.
pub fn sub_chars<'a>(s: &'a str, i: usize, j: usize) -> (r: &'a str)
    requires
        i <= j <= s@.len(),
    ensures
        r@ == s@.subrange(i as int, j as int),
{
    s.substring_char(i, j)
}

/// `str::trim`.
pub fn trim_str<'a>(s: &'a str) -> (r: &'a str)
    ensures
        r@ == trim(s@),
{
    let len = s.unicode_len();
    let mut i: usize = 0;
    while i < len && is_whitespace(s.get_char(i))
        invariant
            0 <= i <= len,
            len == s@.len(),
            forall|k: int| 0 <= k < i ==> is_ws(#[trigger] s@[k]),
        decreases len - i,
    {
        i = i + 1;
    }
    proof {
        lemma_trim_start_skip(s@, i as int);
        if i < len {
            assert(!is_ws(s@[i as int]));
            assert(s@.skip(i as int)[0] == s@[i as int]);
        }
        assert(trim_start(s@.skip(i as int)) == s@.skip(i as int));
    }
    let mut j: usize = len;
    while j > i && is_whitespace(s.get_char(j - 1))
        invariant
            i <= j <= len,
            len == s@.len(),
            forall|k: int| j <= k < len ==> is_ws(#[trigger] s@[k]),
        decreases j - i,
    {
        j = j - 1;
    }
    let ghost t = s@.skip(i as int);
    proof {
        assert forall|k: int| (j - i) <= k < t.len() implies is_ws(#[trigger] t[k]) by {
            assert(t[k] == s@[k + i]);
        }
        lemma_trim_end_take(t, j - i);
        if j > i {
            assert(t.take(j - i).last() == s@[j - 1]);
        }
        assert(trim_end(t.take(j - i)) == t.take(j - i));
        assert(t.take(j - i) =~= s@.subrange(i as int, j as int));
    }
    s.substring_char(i, j)
}

/// Whether `s` is empty or white space only (`s.trim().is_empty()`).
pub fn is_blank(s: &str) -> (r: bool)
    ensures
        r == (trim(s@).len() == 0),
        r == all_ws(s@),
{
    let t = trim_str(s);
    proof {
        lemma_trim_empty_iff_all_ws(s@);
    }
    t.unicode_len() == 0
}

/// Whether the characters of `s` from position `at` on start with `p`.
pub fn matches_at(s: &str, at: usize, p: &str) -> (r: bool)
    requires
        at <= s@.len(),
    ensures
        r == occurs_at(s@, p@, at as int),
{
    let slen = s.unicode_len();
    let plen = p.unicode_len();
    if plen > slen - at {
        return false;
    }
    let mut k: usize = 0;
    while k < plen
        invariant
            0 <= k <= plen,
            slen == s@.len(),
            plen == p@.len(),
            at + plen <= slen,
            forall|m: int| 0 <= m < k ==> s@[at + m] == p@[m],
        decreases plen - k,
    {
        if s.get_char(at + k) != p.get_char(k) {
            proof {
                assert(s@.subrange(at as int, at + plen)[k as int] != p@[k as int]);
            }
            return false;
        }
        k = k + 1;
    }
    assert(s@.subrange(at as int, at + plen) =~= p@);
    true
}


/// Whether two strings have the same characters.
pub fn str_eq(a: &str, b: &str) -> (r: bool)
    ensures
        r == (a@ == b@),
{
    let alen = a.unicode_len();
    let blen = b.unicode_len();
    if alen != blen {
        return false;
    }
    let r = matches_at(a, 0, b);
    proof {
        if r {
            assert(a@.subrange(0, blen as int) =~= a@);
        } else {
            if a@ == b@ {
                assert(a@.subrange(0, blen as int) =~= a@);
            }
        }
    }
    r
}

/// `str::starts_with` with a string pattern.
pub fn str_starts_with(s: &str, p: &str) -> (r: bool)
    ensures
        r == starts_with(s@, p@),
{
    let r = matches_at(s, 0, p);
    proof {
        if p@.len() <= s@.len() {
            assert(s@.take(p@.len() as int) =~= s@.subrange(0, p@.len() as int));
        }
    }
    r
}

/// `str::contains` with a string pattern.
pub fn str_contains(s: &str, p: &str) -> (r: bool)
    ensures
        r == contains_seq(s@, p@),
{
    let slen = s.unicode_len();
    let mut i: usize = 0;
    while i < slen
        invariant
            0 <= i <= slen,
            slen == s@.len(),
            forall|m: int| 0 <= m < i ==> !occurs_at(s@, p@, m),
        decreases slen - i,
    {
        if matches_at(s, i, p) {
            return true;
        }
        i = i + 1;
    }
    if matches_at(s, slen, p) {
        return true;
    }
    assert forall|m: int| !occurs_at(s@, p@, m) by {
        if 0 <= m && m <= slen {
        } else {
        }
    }
    false
}


/// `str::replace` with a non-empty pattern.
pub fn replace_str(s: &str, p: &str, r: &str) -> (res: String)
    requires
        p@.len() > 0,
    ensures
        res@ == replace_all(s@, p@, r@),
{
    let slen = s.unicode_len();
    let plen = p.unicode_len();
    let mut res = String::new();
    let mut i: usize = 0;
    assert(s@.skip(0) =~= s@);
    assert(res@ + replace_all(s@, p@, r@) =~= replace_all(s@, p@, r@));
    while i < slen
        invariant
            0 <= i <= slen,
            slen == s@.len(),
            plen == p@.len(),
            plen > 0,
            res@ + replace_all(s@.skip(i as int), p@, r@) == replace_all(s@, p@, r@),
        decreases slen - i,
    {
        let ghost rest = s@.skip(i as int);
        if plen <= slen - i && matches_at(s, i, p) {
            proof {
                assert(rest.take(plen as int) =~= s@.subrange(i as int, i + plen));
                assert(rest.skip(plen as int) =~= s@.skip(i + plen));
                assert(res@ + r@ + replace_all(s@.skip(i + plen), p@, r@) =~= res@ + (r@
                    + replace_all(rest.skip(plen as int), p@, r@)));
            }
            res.append(r);
            i = i + plen;
        } else {
            let c = char_string(s, i);
            proof {
                if plen <= slen - i {
                    assert(rest.take(plen as int) =~= s@.subrange(i as int, i + plen));
                    assert(rest.take(plen as int) != p@);
                }
                assert(rest[0] == s@[i as int]);
                assert(rest.drop_first() =~= s@.skip(i + 1));
                if rest.len() >= plen {
                    assert(res@ + c@ + replace_all(s@.skip(i + 1), p@, r@) =~= res@ + (seq![rest[0]]
                        + replace_all(rest.drop_first(), p@, r@)));
                } else {
                    assert(replace_all(rest, p@, r@) == rest);
                    assert(replace_all(rest.drop_first(), p@, r@) == rest.drop_first());
                    assert(res@ + c@ + replace_all(s@.skip(i + 1), p@, r@) =~= res@ + rest);
                }
            }
            res.append(c.as_str());
            i = i + 1;
        }
    }
    proof {
        assert(s@.skip(i as int).len() == 0);
        assert(res@ + replace_all(s@.skip(i as int), p@, r@) =~= res@);
    }
    res
}


/// The pieces of `s` between occurrences of `c`.
pub fn split_by_char(s: &str, c: char) -> (r: Vec<String>)
    ensures
        views(r@) == split_char(s@, c),
{
    let n = s.unicode_len();
    let mut parts: Vec<String> = Vec::new();
    let mut cur = String::new();
    let mut i: usize = 0;
    assert(s@.take(0) =~= Seq::<char>::empty());
    assert(views(parts@).push(cur@) =~= seq![Seq::<char>::empty()]);
    while i < n
        invariant
            0 <= i <= n,
            n == s@.len(),
            views(parts@).push(cur@) == split_char(s@.take(i as int), c),
        decreases n - i,
    {
        let ch = s.get_char(i);
        proof {
            assert(s@.take(i + 1).drop_last() =~= s@.take(i as int));
            assert(s@.take(i + 1).last() == ch);
            lemma_split_char_nonempty(s@.take(i as int), c);
        }
        if ch == c {
            let ghost old_parts = parts@;
            let ghost old_cur = cur@;
            let done = cur;
            parts.push(done);
            cur = String::new();
            proof {
                lemma_views_push(old_parts, done);
                assert(views(parts@).push(cur@) =~= views(old_parts).push(old_cur).push(
                    Seq::empty(),
                ));
            }
        } else {
            let ghost old_cur = cur@;
            let cs = char_string(s, i);
            cur.append(cs.as_str());
            proof {
                let p = views(parts@).push(old_cur);
                assert(cur@ =~= old_cur.push(ch));
                assert(views(parts@).push(cur@) =~= p.update(p.len() - 1, p.last().push(ch)));
            }
        }
        i = i + 1;
    }
    let ghost before = parts@;
    let ghost last = cur@;
    parts.push(cur);
    proof {
        lemma_views_push(before, parts@[parts.len() - 1]);
        assert(s@.take(n as int) =~= s@);
    }
    parts
}

/// The value of the digits of `s` from position `start` on, when they are all
/// digits, there is at least one, and the value is at most `limit`.
fn parse_digits_from(s: &str, start: usize, limit: u64) -> (r: Option<u64>)
    requires
        start <= s@.len(),
        limit <= 0x1_0000_0000,
    ensures
        match r {
            Some(v) => {
                let d = s@.skip(start as int);
                d.len() > 0 && all_digits(d) && digits_value(d) <= limit && v == digits_value(d)
            },
            None => {
                let d = s@.skip(start as int);
                !(d.len() > 0 && all_digits(d) && digits_value(d) <= limit)
            },
        },
{
    let n = s.unicode_len();
    let ghost d = s@.skip(start as int);
    if start >= n {
        return None;
    }
    let mut value: u64 = 0;
    let mut over = false;
    let mut i: usize = start;
    while i < n
        invariant
            start <= i <= n,
            n == s@.len(),
            limit <= 0x1_0000_0000,
            d == s@.skip(start as int),
            all_digits(d.take(i - start)),
            !over ==> value == digits_value(d.take(i - start)) && value <= limit,
            over ==> digits_value(d.take(i - start)) > limit,
        decreases n - i,
    {
        let ch = s.get_char(i);
        proof {
            assert(d.take(i - start + 1).drop_last() =~= d.take(i - start));
            assert(d.take(i - start + 1).last() == ch);
        }
        if !('0' <= ch && ch <= '9') {
            proof {
                assert(d[i - start] == ch);
                assert(!all_digits(d));
            }
            return None;
        }
        let dv = (ch as u32 - '0' as u32) as u64;
        if !over {
            let nv = value * 10 + dv;
            if nv > limit {
                over = true;
            } else {
                value = nv;
            }
        }
        proof {
            assert forall|k: int| 0 <= k < i - start + 1 implies is_digit(
                #[trigger] d.take(i - start + 1)[k],
            ) by {
                if k < i - start {
                    assert(d.take(i - start + 1)[k] == d.take(i - start)[k]);
                }
            }
        }
        i = i + 1;
    }
    proof {
        assert(d.take(n - start) =~= d);
    }
    if over {
        None
    } else {
        Some(value)
    }
}

/// `s.parse::<u32>().ok()`.
pub fn parse_u32(s: &str) -> (r: Option<u32>)
    ensures
        r == parse_u32_spec(s@),
{
    let n = s.unicode_len();
    let start: usize = if n > 0 && s.get_char(0) == '+' {
        1
    } else {
        0
    };
    proof {
        assert(s@.skip(start as int) =~= drop_plus(s@));
    }
    match parse_digits_from(s, start, 0xffff_ffff) {
        Some(v) => Some(v as u32),
        None => None,
    }
}

/// `10` to the power `k`.
pub open spec fn ten_pow(k: nat) -> nat
    decreases k,
{
    if k == 0 {
        1
    } else {
        10 * ten_pow((k - 1) as nat)
    }
}

/// The number that `s` writes with exactly `n` decimal digits (leading zeros
/// included, no sign), if `s` is such a text.
pub open spec fn padded_number(s: Seq<char>, n: nat) -> Option<nat> {
    if s.len() == n && all_digits(s) {
        Some(digits_value(s))
    } else {
        None
    }
}

/// `k` digits write a number below `10^k`.
pub proof fn lemma_digits_value_bound(s: Seq<char>)
    requires
        all_digits(s),
    ensures
        digits_value(s) < ten_pow(s.len()),
    decreases s.len(),
{
    if s.len() > 0 {
        assert(all_digits(s.drop_last()));
        lemma_digits_value_bound(s.drop_last());
        assert(is_digit(s.last()));
    }
}

/// The number written by exactly `n` digits, for `n` from 1 to 4.
pub fn parse_padded(s: &str, n: usize) -> (r: Option<u32>)
    requires
        1 <= n <= 4,
    ensures
        match padded_number(s@, n as nat) {
            Some(v) => r == Some(v as u32) && v < 10000,
            None => r is None,
        },
{
    if s.unicode_len() != n {
        return None;
    }
    proof {
        assert(s@.skip(0) =~= s@);
        reveal_with_fuel(ten_pow, 5);
        if all_digits(s@) {
            lemma_digits_value_bound(s@);
        }
    }
    match parse_digits_from(s, 0, 9999) {
        Some(v) => Some(v as u32),
        None => None,
    }
}

/// `s.parse::<i32>().ok()`.
pub fn parse_i32(s: &str) -> (r: Option<i32>)
    ensures
        r == parse_i32_spec(s@),
{
    let n = s.unicode_len();
    if n > 0 && s.get_char(0) == '-' {
        proof {
            assert(s@.skip(1) =~= s@.drop_first());
        }
        match parse_digits_from(s, 1, 0x8000_0000) {
            Some(v) => Some((0 - (v as i64)) as i32),
            None => None,
        }
    } else {
        let start: usize = if n > 0 && s.get_char(0) == '+' {
            1
        } else {
            0
        };
        proof {
            assert(s@.skip(start as int) =~= drop_plus(s@));
        }
        match parse_digits_from(s, start, 0x7fff_ffff) {
            Some(v) => Some(v as i32),
            None => None,
        }
    }
}


/// `str::trim_start`.
pub fn trim_start_str<'a>(s: &'a str) -> (r: &'a str)
    ensures
        r@ == trim_start(s@),
{
    let len = s.unicode_len();
    let mut i: usize = 0;
    while i < len && is_whitespace(s.get_char(i))
        invariant
            0 <= i <= len,
            len == s@.len(),
            forall|k: int| 0 <= k < i ==> is_ws(#[trigger] s@[k]),
        decreases len - i,
    {
        i = i + 1;
    }
    proof {
        lemma_trim_start_skip(s@, i as int);
        if i < len {
            assert(s@.skip(i as int)[0] == s@[i as int]);
        }
        assert(trim_start(s@.skip(i as int)) == s@.skip(i as int));
    }
    skip_chars(s, i)
}

/// The position of the first occurrence of `p` in `s` at or after `from`.
pub fn find_str_from(s: &str, p: &str, from: usize) -> (r: Option<usize>)
    requires
        from <= s@.len(),
    ensures
        match r {
            Some(i) => find_from(s@, p@, from as int) == Some(i as int),
            None => find_from(s@, p@, from as int) is None,
        },
{
    let slen = s.unicode_len();
    let plen = p.unicode_len();
    if plen > slen - from {
        return None;
    }
    let mut i: usize = from;
    while i < slen - plen
        invariant
            from <= i,
            slen == s@.len(),
            plen == p@.len(),
            from + plen <= slen,
            i <= slen - plen,
            find_from(s@, p@, from as int) == find_from(s@, p@, i as int),
        decreases slen - i,
    {
        if matches_at(s, i, p) {
            return Some(i);
        }
        i = i + 1;
    }
    if matches_at(s, i, p) {
        Some(i)
    } else {
        assert(find_from(s@, p@, i + 1) is None);
        None
    }
}

/// `str::split_once` with a string pattern.
pub fn split_once_str<'a>(s: &'a str, p: &str) -> (r: Option<(&'a str, &'a str)>)
    ensures
        match (r, split_once(s@, p@)) {
            (Some((a, b)), Some((x, y))) => a@ == x && b@ == y,
            (None, None) => true,
            _ => false,
        },
{
    match find_str_from(s, p, 0) {
        Some(i) => {
            let _slen = s.unicode_len();
            let plen = p.unicode_len();
            proof {
                lemma_find_from_some(s@, p@, 0, i as int);
            }
            let a = sub_chars(s, 0, i);
            let b = skip_chars(s, i + plen);
            assert(a@ =~= s@.take(i as int));
            Some((a, b))
        },
        None => None,
    }
}

/// The lines of `s` (`str::lines`).
pub fn lines_of(s: &str) -> (r: Vec<String>)
    ensures
        views(r@) == lines(s@),
{
    let pieces = split_by_char(s, '\n');
    proof {
        lemma_split_char_nonempty(s@, '\n');
    }
    let n = pieces.len();
    let keep: usize = if pieces[n - 1].as_str().unicode_len() == 0 {
        n - 1
    } else {
        n
    };
    let ghost ps = split_char(s@, '\n');
    let ghost kept = if ps.last().len() == 0 {
        ps.drop_last()
    } else {
        ps
    };
    assert(kept.len() == keep);
    assert(views(pieces@) == ps);
    assert(forall|k: int| 0 <= k < keep ==> kept[k] == ps[k]);
    let mut r: Vec<String> = Vec::new();
    let mut i: usize = 0;
    while i < keep
        invariant
            0 <= i <= keep,
            keep <= n,
            n == pieces.len(),
            views(pieces@) == ps,
            kept.len() == keep,
            forall|k: int| 0 <= k < keep ==> kept[k] == ps[k],
            views(r@) =~= Seq::new(i as nat, |k: int| drop_cr(kept[k])),
        decreases keep - i,
    {
        let piece = pieces[i].as_str();
        let len = piece.unicode_len();
        let line: String = if len > 0 && piece.get_char(len - 1) == '\r' {
            String::from_str(sub_chars(piece, 0, len - 1))
        } else {
            String::from_str(piece)
        };
        proof {
            assert(piece@ == ps[i as int]);
            if len > 0 && piece@.last() == '\r' {
                assert(piece@.subrange(0, len - 1) =~= piece@.drop_last());
            }
        }
        let ghost before = r@;
        r.push(line);
        proof {
            lemma_views_push(before, line);
        }
        i = i + 1;
    }
    assert(views(r@) =~= lines(s@));
    r
}

/// Whether `a` comes before `b` in lexicographic order.
pub fn str_lt(a: &str, b: &str) -> (r: bool)
    ensures
        r == seq_lt(a@, b@),
{
    let alen = a.unicode_len();
    let blen = b.unicode_len();
    let mut i: usize = 0;
    assert(a@.skip(0) =~= a@);
    assert(b@.skip(0) =~= b@);
    while i < alen && i < blen && a.get_char(i) == b.get_char(i)
        invariant
            0 <= i <= alen,
            i <= blen,
            alen == a@.len(),
            blen == b@.len(),
            seq_lt(a@, b@) == seq_lt(a@.skip(i as int), b@.skip(i as int)),
        decreases alen - i,
    {
        proof {
            assert(a@.skip(i as int)[0] == a@[i as int]);
            assert(b@.skip(i as int)[0] == b@[i as int]);
            assert(a@.skip(i as int).drop_first() =~= a@.skip(i + 1));
            assert(b@.skip(i as int).drop_first() =~= b@.skip(i + 1));
        }
        i = i + 1;
    }
    if i == alen {
        i < blen
    } else if i == blen {
        false
    } else {
        proof {
            assert(a@.skip(i as int)[0] == a@[i as int]);
            assert(b@.skip(i as int)[0] == b@[i as int]);
        }
        (a.get_char(i) as u32) < (b.get_char(i) as u32)
    }
}

/// The words of `s` (`str::split_whitespace`).
pub fn words_of(s: &str) -> (r: Vec<String>)
    ensures
        views(r@) == words(s@),
{
    let n = s.unicode_len();
    let mut r: Vec<String> = Vec::new();
    let mut i: usize = 0;
    assert(s@.take(0) =~= Seq::<char>::empty());
    while i < n
        invariant
            0 <= i <= n,
            n == s@.len(),
            views(r@) == words(s@.take(i as int)),
        decreases n - i,
    {
        let c = s.get_char(i);
        let ghost t = s@.take(i + 1);
        proof {
            assert(t.drop_last() =~= s@.take(i as int));
            assert(t.last() == c);
        }
        if !is_whitespace(c) {
            let cs = char_string(s, i);
            if i > 0 && !is_whitespace(s.get_char(i - 1)) {
                proof {
                    assert(t[t.len() - 2] == s@[i - 1]);
                    lemma_words_nonempty_when_word_char(s@.take(i as int));
                    assert(s@.take(i as int).last() == s@[i - 1]);
                }
                let last = r.len() - 1;
                let ghost before = views(r@);
                let mut w = r.remove(last);
                w.append(cs.as_str());
                let ghost wv = w@;
                r.push(w);
                proof {
                    assert(wv =~= before.last().push(c));
                    assert(views(r@) =~= before.update(before.len() - 1, before.last().push(c)));
                }
            } else {
                proof {
                    if i > 0 {
                        assert(t[t.len() - 2] == s@[i - 1]);
                    }
                }
                let ghost before = r@;
                r.push(cs);
                proof {
                    lemma_views_push(before, cs);
                }
            }
        }
        i = i + 1;
    }
    assert(s@.take(n as int) =~= s@);
    r
}

/// Joins `parts` with `sep` between each two.
pub fn join_strings(parts: &Vec<String>, sep: &str) -> (r: String)
    ensures
        r@ == join(views(parts@), sep@),
{
    let mut r = String::new();
    let mut i: usize = 0;
    while i < parts.len()
        invariant
            0 <= i <= parts.len(),
            r@ == join(views(parts@.take(i as int)), sep@),
        decreases parts.len() - i,
    {
        proof {
            assert(parts@.take(i + 1) =~= parts@.take(i as int).push(parts@[i as int]));
            lemma_views_push(parts@.take(i as int), parts@[i as int]);
            lemma_join_push(views(parts@.take(i as int)), sep@, parts@[i as int]@);
        }
        if i > 0 {
            r.append(sep);
        }
        r.append(parts[i].as_str());
        i = i + 1;
    }
    assert(parts@.take(parts.len() as int) =~= parts@);
    r
}

fn digit_str(d: u64) -> (r: &'static str)
    requires
        d < 10,
    ensures
        r@ == seq![digit_char(d as int)],
{
    proof {
        reveal_strlit("0");
        reveal_strlit("1");
        reveal_strlit("2");
        reveal_strlit("3");
        reveal_strlit("4");
        reveal_strlit("5");
        reveal_strlit("6");
        reveal_strlit("7");
        reveal_strlit("8");
        reveal_strlit("9");
    }
    if d == 0 {
        "0"
    } else if d == 1 {
        "1"
    } else if d == 2 {
        "2"
    } else if d == 3 {
        "3"
    } else if d == 4 {
        "4"
    } else if d == 5 {
        "5"
    } else if d == 6 {
        "6"
    } else if d == 7 {
        "7"
    } else if d == 8 {
        "8"
    } else {
        "9"
    }
}

/// The decimal representation of `n` (`n.to_string()`).
pub fn u64_to_string(n: u64) -> (r: String)
    ensures
        r@ == nat_str(n as nat),
    decreases n,
{
    if n < 10 {
        String::from_str(digit_str(n))
    } else {
        let mut r = u64_to_string(n / 10);
        r.append(digit_str(n % 10));
        r
    }
}

pub fn usize_to_string(n: usize) -> (r: String)
    ensures
        r@ == nat_str(n as nat),
{
    u64_to_string(n as u64)
}

/// The decimal representation of `n` with a leading `-` when it is negative.
pub fn i64_to_string(n: i64) -> (r: String)
    ensures
        r@ == int_str(n as int),
{
    if n < 0 {
        let mut r = String::from_str("-");
        let m: u64 = if n == i64::MIN {
            9223372036854775808u64
        } else {
            (-n) as u64
        };
        let d = u64_to_string(m);
        r.append(d.as_str());
        proof {
            reveal_strlit("-");
        }
        r
    } else {
        u64_to_string(n as u64)
    }
}

/// The decimal digits of `n` with a leading `-` when it is negative.
pub open spec fn int_str(n: int) -> Seq<char> {
    if n < 0 {
        seq!['-'] + nat_str((-n) as nat)
    } else {
        nat_str(n as nat)
    }
}

/// `n` written with at least `width` digits, zeros on the left (`{:0width$}`).
pub fn u64_to_padded(n: u64, width: usize) -> (r: String)
    requires
        width <= 64,
    ensures
        r@ == zero_pad(n as nat, width as nat),
{
    let digits = u64_to_string(n);
    let len = digits.as_str().unicode_len();
    let mut r = String::new();
    if len < width {
        let mut k: usize = 0;
        while k < width - len
            invariant
                0 <= k <= width - len,
                len == digits@.len(),
                len < width,
                r@ == Seq::new(k as nat, |i: int| '0'),
            decreases width - len - k,
        {
            r.append("0");
            proof {
                reveal_strlit("0");
                assert(r@ =~= Seq::new((k + 1) as nat, |i: int| '0'));
            }
            k = k + 1;
        }
    }
    r.append(digits.as_str());
    proof {
        if len >= width {
            assert(r@ =~= digits@);
        }
    }
    r
}


// ─── Truncation and byte prefixes ─────────────────────────────────────────

/// `s` cut to `n` characters, with `...` added when it was longer.
pub open spec fn truncated(s: Seq<char>, n: int) -> Seq<char> {
    if s.len() > n {
        prefix(s, n) + "..."@
    } else {
        s
    }
}

/// `s` cut to `max_chars` characters, with `...` added when it was longer.
pub fn truncate_chars(s: &str, max_chars: usize) -> (r: String)
    ensures
        r@ == truncated(s@, max_chars as int),
{
    let mut r = take_chars(s, max_chars);
    if s.unicode_len() > max_chars {
        r.append("...");
    }
    r
}

/// The characters at the start of `s` whose UTF-8 encoding is exactly `n`
/// bytes long, if `s` has at least `n` bytes and byte `n` starts a character
/// (`str::get(..n)`).
pub open spec fn byte_prefix(s: Seq<char>, n: int) -> Option<Seq<char>>
    decreases s.len(),
{
    if n == 0 {
        Some(Seq::empty())
    } else if n < 0 || s.len() == 0 {
        None
    } else {
        match byte_prefix(s.drop_first(), n - utf8_width(s[0])) {
            Some(p) => Some(seq![s[0]] + p),
            None => None,
        }
    }
}

/// The number of bytes of the UTF-8 encoding of `c` (`char::len_utf8`).
pub fn char_utf8_width(c: char) -> (w: usize)
    ensures
        w == utf8_width(c),
        1 <= w <= 4,
{
    let v = c as u32;
    proof {
        vstd::utf8::char_is_scalar(c);
    }
    if v <= 0x7F {
        1
    } else if v <= 0x7FF {
        2
    } else if v <= 0xFFFF {
        3
    } else {
        4
    }
}

proof fn lemma_byte_prefix_step(s: Seq<char>, i: int, n: int)
    requires
        0 <= i < s.len(),
        n > 0,
    ensures
        (match byte_prefix(s.skip(i), n) {
            Some(p) => Some(s.take(i) + p),
            None => None::<Seq<char>>,
        }) == (match byte_prefix(s.skip(i + 1), n - utf8_width(s[i])) {
            Some(p) => Some(s.take(i + 1) + p),
            None => None::<Seq<char>>,
        }),
{
    assert(s.skip(i).drop_first() =~= s.skip(i + 1));
    assert(s.skip(i)[0] == s[i]);
    match byte_prefix(s.skip(i + 1), n - utf8_width(s[i])) {
        Some(p) => {
            assert(s.take(i) + (seq![s[i]] + p) =~= s.take(i + 1) + p);
        },
        None => {},
    }
}

/// `str::get(..n)`: the leading characters of `s` that make up exactly its
/// first `n` bytes.
pub fn byte_prefix_str<'a>(s: &'a str, n: usize) -> (r: Option<&'a str>)
    ensures
        match (r, byte_prefix(s@, n as int)) {
            (Some(a), Some(b)) => a@ == b,
            (None, None) => true,
            _ => false,
        },
{
    let len = s.unicode_len();
    let mut i: usize = 0;
    let mut acc: usize = 0;
    assert(s@.skip(0) =~= s@);
    assert(s@.take(0) + s@ =~= s@);
    while i < len && acc < n
        invariant
            0 <= i <= len,
            len == s@.len(),
            acc <= n,
            byte_prefix(s@, n as int) == (match byte_prefix(s@.skip(i as int), n - acc) {
                Some(p) => Some(s@.take(i as int) + p),
                None => None::<Seq<char>>,
            }),
        decreases len - i,
    {
        let w = char_utf8_width(s.get_char(i));
        proof {
            lemma_byte_prefix_step(s@, i as int, n - acc);
        }
        if w > n - acc {
            proof {
                assert(n - acc - utf8_width(s@[i as int]) < 0);
            }
            return None;
        }
        acc = acc + w;
        i = i + 1;
    }
    if acc == n {
        let r = s.substring_char(0, i);
        proof {
            assert(s@.take(i as int) + Seq::<char>::empty() =~= s@.take(i as int));
        }
        Some(r)
    } else {
        proof {
            assert(s@.skip(i as int).len() == 0);
        }
        None
    }
}


// ─── Lemmas on pieces, digits and trimming ────────────────────────────────

/// Text without the separator is a single piece.
pub proof fn lemma_split_char_no_sep(a: Seq<char>, c: char)
    requires
        forall|k: int| 0 <= k < a.len() ==> a[k] != c,
    ensures
        split_char(a, c) == seq![a],
    decreases a.len(),
{
    if a.len() > 0 {
        lemma_split_char_no_sep(a.drop_last(), c);
        assert(a.drop_last().push(a.last()) =~= a);
        assert(seq![a.drop_last()].update(0, a) =~= seq![a]);
    } else {
        assert(a =~= Seq::<char>::empty());
    }
}

/// The pieces of `a`, a separator and `b`, where `a` holds no separator.
pub proof fn lemma_split_char_after(a: Seq<char>, b: Seq<char>, c: char)
    requires
        forall|k: int| 0 <= k < a.len() ==> a[k] != c,
    ensures
        split_char(a + seq![c] + b, c) == seq![a] + split_char(b, c),
    decreases b.len(),
{
    let s = a + seq![c] + b;
    if b.len() == 0 {
        assert(s.drop_last() =~= a);
        lemma_split_char_no_sep(a, c);
        assert(seq![a].push(Seq::<char>::empty()) =~= seq![a] + seq![Seq::<char>::empty()]);
    } else {
        lemma_split_char_after(a, b.drop_last(), c);
        assert(s.drop_last() =~= a + seq![c] + b.drop_last());
        assert(s.last() == b.last());
        lemma_split_char_nonempty(b.drop_last(), c);
        let q = split_char(b.drop_last(), c);
        if b.last() == c {
            assert((seq![a] + q).push(Seq::<char>::empty()) =~= seq![a] + q.push(Seq::<char>::empty()));
        } else {
            assert((seq![a] + q).update(q.len() as int, q.last().push(b.last())) =~= seq![a] + q.update(
                q.len() - 1,
                q.last().push(b.last()),
            ));
        }
    }
}

/// The decimal digits of a number: at least one, all digits.
pub proof fn lemma_nat_str_digits(n: nat)
    ensures
        nat_str(n).len() >= 1,
        all_digits(nat_str(n)),
    decreases n,
{
    if n >= 10 {
        lemma_nat_str_digits(n / 10);
    }
}

/// `zero_pad` writes digits only, at least one.
pub proof fn lemma_zero_pad_digits(n: nat, width: nat)
    ensures
        zero_pad(n, width).len() >= 1,
        all_digits(zero_pad(n, width)),
{
    lemma_nat_str_digits(n);
    let d = nat_str(n);
    if d.len() < width {
        let z = Seq::new((width - d.len()) as nat, |i: int| '0');
        assert forall|i: int| 0 <= i < (z + d).len() implies is_digit(#[trigger] (z + d)[i]) by {
            if i >= z.len() {
                assert((z + d)[i] == d[i - z.len()]);
            }
        }
    }
}

/// Text that neither starts nor ends with white space is its own trim.
pub proof fn lemma_trim_no_ws_ends(s: Seq<char>)
    requires
        s.len() > 0 ==> !is_ws(s[0]) && !is_ws(s.last()),
    ensures
        trim(s) == s,
{
    assert(trim_start(s) == s);
}

proof fn lemma_trim_end_idempotent(s: Seq<char>)
    ensures
        trim_end(trim_end(s)) == trim_end(s),
    decreases s.len(),
{
    if s.len() > 0 && is_ws(s.last()) {
        lemma_trim_end_idempotent(s.drop_last());
    }
}

/// Trimming a trimmed text changes nothing.
pub proof fn lemma_trim_idempotent(s: Seq<char>)
    ensures
        trim(trim(s)) == trim(s),
{
    lemma_trim_start_of_trim(s);
    lemma_trim_end_idempotent(trim_start(s));
}

/// A trimmed text has no leading white space left.
pub proof fn lemma_trim_start_of_trim(s: Seq<char>)
    ensures
        trim_start(trim(s)) == trim(s),
{
    lemma_trim_start_shape(s);
    let t = trim_start(s);
    if t.len() > 0 {
        assert(!is_ws(t[0]));
        lemma_trim_end_keeps_head(t);
    }
}

proof fn lemma_trim_end_keeps_head(t: Seq<char>)
    requires
        t.len() > 0,
        !is_ws(t[0]),
    ensures
        trim_end(t).len() > 0,
        trim_end(t)[0] == t[0],
    decreases t.len(),
{
    if is_ws(t.last()) {
        lemma_trim_end_keeps_head(t.drop_last());
    }
}

/// The first occurrence of `p` from `i` on is at `k`.
pub proof fn lemma_find_from_first(s: Seq<char>, p: Seq<char>, i: int, k: int)
    requires
        0 <= i <= k,
        occurs_at(s, p, k),
        forall|j: int| i <= j < k ==> !occurs_at(s, p, j),
    ensures
        find_from(s, p, i) == Some(k),
    decreases k - i,
{
    if i < k {
        lemma_find_from_first(s, p, i + 1, k);
    }
}


/// No piece holds the separator.
pub proof fn lemma_split_char_pieces_no_sep(s: Seq<char>, c: char)
    ensures
        forall|k: int, j: int|
            0 <= k < split_char(s, c).len() && 0 <= j < split_char(s, c)[k].len() ==> #[trigger] split_char(
                s,
                c,
            )[k][j] != c,
    decreases s.len(),
{
    if s.len() > 0 {
        lemma_split_char_pieces_no_sep(s.drop_last(), c);
        lemma_split_char_nonempty(s.drop_last(), c);
    }
}

/// Joining the pieces of `s` with the separator gives `s` back.
pub proof fn lemma_join_split(s: Seq<char>, c: char)
    ensures
        join(split_char(s, c), seq![c]) == s,
    decreases s.len(),
{
    if s.len() == 0 {
    } else {
        let p = split_char(s.drop_last(), c);
        lemma_join_split(s.drop_last(), c);
        lemma_split_char_nonempty(s.drop_last(), c);
        if s.last() == c {
            lemma_join_push(p, seq![c], Seq::<char>::empty());
            assert(s.drop_last() + seq![c] + Seq::<char>::empty() =~= s);
        } else {
            let q = p.update(p.len() - 1, p.last().push(s.last()));
            if p.len() == 1 {
                assert(s.drop_last().push(s.last()) =~= s);
            } else {
                assert(q.drop_last() =~= p.drop_last());
                assert(q.last() == p.last().push(s.last()));
                assert(join(p, seq![c]) == join(p.drop_last(), seq![c]) + seq![c] + p.last());
                assert(join(q, seq![c]) == join(q.drop_last(), seq![c]) + seq![c] + q.last());
                assert(join(p.drop_last(), seq![c]) + seq![c] + p.last().push(s.last()) =~= (join(
                    p.drop_last(),
                    seq![c],
                ) + seq![c] + p.last()).push(s.last()));
                assert(s.drop_last().push(s.last()) =~= s);
            }
        }
    }
}

/// The pieces of `x + y`: those of `x` but its last, then the pieces of that
/// last piece followed by `y`.
pub proof fn lemma_split_char_concat(x: Seq<char>, y: Seq<char>, c: char)
    ensures
        split_char(x + y, c) == split_char(x, c).drop_last() + split_char(
            split_char(x, c).last() + y,
            c,
        ),
    decreases y.len(),
{
    lemma_split_char_nonempty(x, c);
    let px = split_char(x, c);
    let l = px.last();
    if y.len() == 0 {
        assert(x + y =~= x);
        assert(l + y =~= l);
        lemma_split_char_pieces_no_sep(x, c);
        assert forall|j: int| 0 <= j < l.len() implies l[j] != c by {
            assert(px[px.len() - 1][j] != c);
        }
        lemma_split_char_no_sep(l, c);
        assert(px.drop_last() + seq![l] =~= px);
    } else {
        lemma_split_char_concat(x, y.drop_last(), c);
        assert((x + y).drop_last() =~= x + y.drop_last());
        assert((x + y).last() == y.last());
        assert((l + y).drop_last() =~= l + y.drop_last());
        assert((l + y).last() == y.last());
        lemma_split_char_nonempty(l + y.drop_last(), c);
        let q = split_char(l + y.drop_last(), c);
        let d = px.drop_last();
        if y.last() == c {
            assert((d + q).push(Seq::<char>::empty()) =~= d + q.push(Seq::<char>::empty()));
        } else {
            assert((d + q).update((d + q).len() - 1, (d + q).last().push(y.last())) =~= d + q.update(
                q.len() - 1,
                q.last().push(y.last()),
            ));
        }
    }
}


// ─── The order of texts ───────────────────────────────────────────────────

pub proof fn lemma_seq_lt_asym(a: Seq<char>, b: Seq<char>)
    ensures
        seq_lt(a, b) ==> !seq_lt(b, a),
    decreases a.len(),
{
    if a.len() > 0 && b.len() > 0 && a[0] == b[0] {
        lemma_seq_lt_asym(a.drop_first(), b.drop_first());
    }
}

pub proof fn lemma_seq_lt_trans(a: Seq<char>, b: Seq<char>, c: Seq<char>)
    ensures
        seq_lt(a, b) && seq_lt(b, c) ==> seq_lt(a, c),
    decreases a.len(),
{
    if a.len() > 0 && b.len() > 0 && c.len() > 0 && a[0] == b[0] && b[0] == c[0] {
        lemma_seq_lt_trans(a.drop_first(), b.drop_first(), c.drop_first());
    }
}

pub proof fn lemma_seq_lt_total(a: Seq<char>, b: Seq<char>)
    ensures
        a != b ==> seq_lt(a, b) || seq_lt(b, a),
    decreases a.len(),
{
    if a.len() > 0 && b.len() > 0 && a[0] == b[0] {
        lemma_seq_lt_total(a.drop_first(), b.drop_first());
        if a.drop_first() == b.drop_first() {
            assert(a =~= seq![a[0]] + a.drop_first());
            assert(b =~= seq![b[0]] + b.drop_first());
        }
    } else if a.len() == 0 && b.len() == 0 {
        assert(a =~= b);
    } else if a.len() > 0 && b.len() > 0 {
        vstd::utf8::char_u32_cast(a[0], a[0] as u32);
        vstd::utf8::char_u32_cast(b[0], b[0] as u32);
        assert((a[0] as u32) != (b[0] as u32));
    }
}

} // verus!

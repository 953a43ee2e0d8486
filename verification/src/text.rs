//! Character-level building blocks: whitespace, trimming, searching, ordering
//! and line splitting over sequences of `char`.

use vstd::prelude::*;
use vstd::string::*;

verus! {

/// Whether `c` carries the Unicode `White_Space` property.
pub open spec fn is_space(c: char) -> bool {
    let n = c as u32;
    ||| 0x09 <= n <= 0x0D
    ||| n == 0x20
    ||| n == 0x85
    ||| n == 0xA0
    ||| n == 0x1680
    ||| 0x2000 <= n <= 0x200A
    ||| n == 0x2028
    ||| n == 0x2029
    ||| n == 0x202F
    ||| n == 0x205F
    ||| n == 0x3000
}

/// The first index at or after `from` that holds no whitespace, or the length
/// of `s` when only whitespace follows.
pub open spec fn content_start(s: Seq<char>, from: int) -> int
    decreases s.len() - from,
{
    if 0 <= from < s.len() && is_space(s[from]) {
        content_start(s, from + 1)
    } else {
        from
    }
}

/// The end of the last non-whitespace character before `to`, or zero when
/// only whitespace precedes.
pub open spec fn content_end(s: Seq<char>, to: int) -> int
    decreases to,
{
    if 0 < to <= s.len() && is_space(s[to - 1]) {
        content_end(s, to - 1)
    } else {
        to
    }
}

/// `s` without its trailing whitespace.
pub open spec fn trim_end(s: Seq<char>) -> Seq<char> {
    s.take(content_end(s, s.len() as int))
}

/// `s` without its leading and trailing whitespace.
pub open spec fn trim(s: Seq<char>) -> Seq<char> {
    let a = content_start(s, 0);
    let b = content_end(s, s.len() as int);
    if a < b {
        s.subrange(a, b)
    } else {
        Seq::empty()
    }
}

/// Whether some character of `s` is whitespace.
pub open spec fn contains_space(s: Seq<char>) -> bool {
    exists|i: int| 0 <= i < s.len() && is_space(#[trigger] s[i])
}

/// The first index at or after `from` that holds `c`, or the length of `s`
/// when there is none.
pub open spec fn find_from(s: Seq<char>, c: char, from: int) -> int
    decreases s.len() - from,
{
    if from < 0 || from >= s.len() {
        s.len() as int
    } else if s[from] == c {
        from
    } else {
        find_from(s, c, from + 1)
    }
}

/// The index of the first `c` in `s`, or the length of `s` when there is none.
pub open spec fn index_of(s: Seq<char>, c: char) -> int {
    find_from(s, c, 0)
}

/// Whether `s` begins with `prefix`.
pub open spec fn starts_with(s: Seq<char>, prefix: Seq<char>) -> bool {
    prefix.len() <= s.len() && s.take(prefix.len() as int) == prefix
}

/// The lines of `s` from index `from` on. A line ends before a line feed or
/// at the end of `s`; a line feed at the very end opens no further line.
pub open spec fn lines_from(s: Seq<char>, from: int) -> Seq<Seq<char>>
    decreases s.len() + 1 - from,
    via lines_from_decreases
{
    if from < 0 || from >= s.len() {
        Seq::empty()
    } else {
        let end = find_from(s, '\n', from);
        seq![s.subrange(from, end)] + lines_from(s, end + 1)
    }
}

#[via_fn]
proof fn lines_from_decreases(s: Seq<char>, from: int) {
    if 0 <= from < s.len() {
        lemma_find_from(s, '\n', from);
    }
}

/// The lines of `s`.
pub open spec fn split_lines(s: Seq<char>) -> Seq<Seq<char>> {
    lines_from(s, 0)
}

/// The concatenation of `parts`, in order.
pub open spec fn concat(parts: Seq<Seq<char>>) -> Seq<char>
    decreases parts.len(),
{
    if parts.len() == 0 {
        Seq::empty()
    } else {
        concat(parts.drop_last()) + parts.last()
    }
}

/// `n` space characters.
pub open spec fn spaces(n: nat) -> Seq<char> {
    Seq::new(n, |i: int| ' ')
}

/// `s` right-aligned in a field of `width` characters, filled with spaces.
pub open spec fn pad_left(s: Seq<char>, width: nat) -> Seq<char> {
    if s.len() < width {
        spaces((width - s.len()) as nat) + s
    } else {
        s
    }
}

/// The decimal digit for `d`, which is below ten.
pub open spec fn digit(d: nat) -> char {
    if d == 0 {
        '0'
    } else if d == 1 {
        '1'
    } else if d == 2 {
        '2'
    } else if d == 3 {
        '3'
    } else if d == 4 {
        '4'
    } else if d == 5 {
        '5'
    } else if d == 6 {
        '6'
    } else if d == 7 {
        '7'
    } else if d == 8 {
        '8'
    } else {
        '9'
    }
}

/// `n` written in decimal, without leading zeros.
pub open spec fn decimal(n: nat) -> Seq<char>
    decreases n,
{
    if n < 10 {
        seq![digit(n)]
    } else {
        decimal(n / 10).push(digit(n % 10))
    }
}

/// The digits of `low`, least significant first, written most significant first.
pub open spec fn digits_text(low: Seq<u8>) -> Seq<char> {
    Seq::new(low.len(), |i: int| digit(low[low.len() - 1 - i] as nat))
}

/// Whether `a` sorts before `b` from index `i` on, given that they agree
/// before `i`: at the first difference the smaller code point decides, and a
/// proper prefix sorts first.
pub open spec fn lex_before_from(a: Seq<char>, b: Seq<char>, i: int) -> bool
    decreases a.len() - i,
{
    if i < 0 || i >= b.len() {
        false
    } else if i >= a.len() {
        true
    } else if a[i] != b[i] {
        (a[i] as u32) < (b[i] as u32)
    } else {
        lex_before_from(a, b, i + 1)
    }
}

/// Whether `a` sorts strictly before `b` in code point order.
pub open spec fn lex_before(a: Seq<char>, b: Seq<char>) -> bool {
    lex_before_from(a, b, 0)
}

/// The content start lies behind a run of whitespace, and holds none.
pub proof fn lemma_content_start(s: Seq<char>, from: int)
    requires
        0 <= from <= s.len(),
    ensures
        from <= content_start(s, from) <= s.len(),
        forall|j: int| from <= j < content_start(s, from) ==> is_space(#[trigger] s[j]),
        content_start(s, from) < s.len() ==> !is_space(s[content_start(s, from)]),
    decreases s.len() - from,
{
    if from < s.len() && is_space(s[from]) {
        lemma_content_start(s, from + 1);
    }
}

/// The content end lies before a run of whitespace, and behind none.
pub proof fn lemma_content_end(s: Seq<char>, to: int)
    requires
        0 <= to <= s.len(),
    ensures
        0 <= content_end(s, to) <= to,
        forall|j: int| content_end(s, to) <= j < to ==> is_space(#[trigger] s[j]),
        content_end(s, to) > 0 ==> !is_space(s[content_end(s, to) - 1]),
    decreases to,
{
    if 0 < to && is_space(s[to - 1]) {
        lemma_content_end(s, to - 1);
    }
}

/// The index that follows a run of whitespace from `from` on is the content
/// start.
pub proof fn lemma_content_start_is(s: Seq<char>, from: int, a: int)
    requires
        0 <= from <= a <= s.len(),
        forall|j: int| from <= j < a ==> is_space(#[trigger] s[j]),
        a < s.len() ==> !is_space(s[a]),
    ensures
        content_start(s, from) == a,
    decreases a - from,
{
    if from < a {
        lemma_content_start_is(s, from + 1, a);
    }
}

/// The index that precedes a run of whitespace up to `to` is the content end.
pub proof fn lemma_content_end_is(s: Seq<char>, to: int, b: int)
    requires
        0 <= b <= to <= s.len(),
        forall|j: int| b <= j < to ==> is_space(#[trigger] s[j]),
        b > 0 ==> !is_space(s[b - 1]),
    ensures
        content_end(s, to) == b,
    decreases to - b,
{
    if b < to {
        lemma_content_end_is(s, to - 1, b);
    }
}

/// The first `c` at or after `from` has no `c` between `from` and itself.
pub proof fn lemma_find_from(s: Seq<char>, c: char, from: int)
    requires
        0 <= from <= s.len(),
    ensures
        from <= find_from(s, c, from) <= s.len(),
        forall|j: int| from <= j < find_from(s, c, from) ==> #[trigger] s[j] != c,
        find_from(s, c, from) < s.len() ==> s[find_from(s, c, from)] == c,
    decreases s.len() - from,
{
    if from < s.len() && s[from] != c {
        lemma_find_from(s, c, from + 1);
    }
}

/// Whether `c` is whitespace.
pub fn char_is_space(c: char) -> (r: bool)
    ensures
        r == is_space(c),
{
    let n: u32 = c as u32;
    (0x09 <= n && n <= 0x0D) || n == 0x20 || n == 0x85 || n == 0xA0 || n == 0x1680 || (0x2000 <= n
        && n <= 0x200A) || n == 0x2028 || n == 0x2029 || n == 0x202F || n == 0x205F || n == 0x3000
}

/// The characters of `s`, one element each.
pub fn chars_of(s: &str) -> (v: Vec<char>)
    ensures
        v@ == s@,
{
    let mut v: Vec<char> = Vec::new();
    for c in it: s.chars()
        invariant
            v@ == s@.take(it.index() as int),
            it.seq() == s@,
    {
        v.push(c);
    }
    v
}

/// Appends `c` to `out` with `String::push` of the standard library, which
/// is documented to append the given character to the end of the string.
#[verifier::external_body]
fn push_char(out: &mut String, c: char)
    ensures
        final(out)@ == old(out)@.push(c),
{
    out.push(c);
}

/// The characters `v[from..to]` as a string.
pub fn string_of(v: &Vec<char>, from: usize, to: usize) -> (s: String)
    requires
        from <= to <= v.len(),
    ensures
        s@ == v@.subrange(from as int, to as int),
{
    let mut s = String::new();
    let mut i: usize = from;
    assert(s@ =~= v@.subrange(from as int, from as int));
    while i < to
        invariant
            from <= i <= to <= v.len(),
            s@ == v@.subrange(from as int, i as int),
        decreases to - i,
    {
        push_char(&mut s, v[i]);
        assert(s@ =~= v@.subrange(from as int, i + 1));
        i += 1;
    }
    s
}

/// The end of `v[from..to]` without its trailing whitespace.
pub fn trim_end_bound(v: &Vec<char>, from: usize, to: usize) -> (b: usize)
    requires
        from <= to <= v.len(),
    ensures
        from <= b <= to,
        v@.subrange(from as int, b as int) == trim_end(v@.subrange(from as int, to as int)),
{
    let mut b: usize = to;
    while b > from && char_is_space(v[b - 1])
        invariant
            from <= b <= to <= v.len(),
            forall|j: int| b <= j < to ==> is_space(#[trigger] v@[j]),
        decreases b,
    {
        b -= 1;
    }
    proof {
        let part = v@.subrange(from as int, to as int);
        assert forall|j: int| b - from <= j < to - from implies is_space(#[trigger] part[j]) by {
            assert(part[j] == v@[j + from]);
        }
        lemma_content_end_is(part, to - from, b - from);
        assert(part.take(b - from) =~= v@.subrange(from as int, b as int));
    }
    b
}

/// The bounds of `v[from..to]` without its surrounding whitespace.
pub fn trim_range(v: &Vec<char>, from: usize, to: usize) -> (r: (usize, usize))
    requires
        from <= to <= v.len(),
    ensures
        from <= r.0 <= r.1 <= to,
        v@.subrange(r.0 as int, r.1 as int) == trim(v@.subrange(from as int, to as int)),
{
    let mut a: usize = from;
    while a < to && char_is_space(v[a])
        invariant
            from <= a <= to <= v.len(),
            forall|j: int| from <= j < a ==> is_space(#[trigger] v@[j]),
        decreases to - a,
    {
        a += 1;
    }
    let mut b: usize = to;
    while b > a && char_is_space(v[b - 1])
        invariant
            a <= b <= to <= v.len(),
            forall|j: int| b <= j < to ==> is_space(#[trigger] v@[j]),
        decreases b,
    {
        b -= 1;
    }
    proof {
        let part = v@.subrange(from as int, to as int);
        assert forall|j: int| 0 <= j < a - from implies is_space(#[trigger] part[j]) by {
            assert(part[j] == v@[j + from]);
        }
        lemma_content_start_is(part, 0, a - from);
        if a < b {
            assert forall|j: int| b - from <= j < to - from implies is_space(
                #[trigger] part[j],
            ) by {
                assert(part[j] == v@[j + from]);
            }
            lemma_content_end_is(part, to - from, b - from);
            assert(part.subrange(a - from, b - from) =~= v@.subrange(a as int, b as int));
        } else {
            lemma_content_end(part, to - from);
            assert(v@.subrange(a as int, b as int) =~= Seq::<char>::empty());
        }
    }
    (a, b)
}

/// `s` without its leading and trailing whitespace.
pub fn trimmed<'a>(s: &'a str) -> (r: &'a str)
    ensures
        r@ == trim(s@),
{
    let v = chars_of(s);
    let (a, b) = trim_range(&v, 0, v.len());
    assert(v@.subrange(0, v.len() as int) =~= v@);
    s.substring_char(a, b)
}

/// Whether some character of `s` is whitespace.
pub fn has_space(s: &str) -> (r: bool)
    ensures
        r == contains_space(s@),
{
    let v = chars_of(s);
    let mut i: usize = 0;
    while i < v.len()
        invariant
            i <= v.len(),
            v@ == s@,
            forall|j: int| 0 <= j < i ==> !is_space(#[trigger] v@[j]),
        decreases v.len() - i,
    {
        if char_is_space(v[i]) {
            return true;
        }
        i += 1;
    }
    false
}

/// Whether `a` and `b` hold the same text.
pub fn text_equal(a: &str, b: &str) -> (r: bool)
    ensures
        r == (a@ == b@),
{
    let x = a.to_owned();
    let y = b.to_owned();
    x == y
}

/// Whether `v` begins with `prefix`.
pub fn chars_start_with(v: &Vec<char>, prefix: &Vec<char>) -> (r: bool)
    ensures
        r == starts_with(v@, prefix@),
{
    if prefix.len() > v.len() {
        return false;
    }
    let mut i: usize = 0;
    while i < prefix.len()
        invariant
            i <= prefix.len() <= v.len(),
            v@.take(i as int) == prefix@.take(i as int),
        decreases prefix.len() - i,
    {
        if v[i] != prefix[i] {
            assert(v@.take(prefix.len() as int)[i as int] != prefix@[i as int]);
            return false;
        }
        assert(v@.take(i + 1) =~= v@.take(i as int).push(v@[i as int]));
        assert(prefix@.take(i + 1) =~= prefix@.take(i as int).push(prefix@[i as int]));
        i += 1;
    }
    assert(prefix@ =~= prefix@.take(prefix.len() as int));
    true
}

/// What follows `prefix` in `s`, when `s` begins with it.
pub fn without_prefix<'a>(s: &'a str, prefix: &str) -> (r: Option<&'a str>)
    ensures
        r is Some == starts_with(s@, prefix@),
        r matches Some(rest) ==> rest@ == s@.skip(prefix@.len() as int),
{
    let v = chars_of(s);
    let p = chars_of(prefix);
    if chars_start_with(&v, &p) {
        Some(s.substring_char(p.len(), v.len()))
    } else {
        None
    }
}

/// Whether `a` sorts strictly before `b` in code point order.
pub fn chars_before(a: &Vec<char>, b: &Vec<char>) -> (r: bool)
    ensures
        r == lex_before(a@, b@),
{
    let mut i: usize = 0;
    while i < a.len() && i < b.len()
        invariant
            i <= a.len(),
            i <= b.len(),
            lex_before(a@, b@) == lex_before_from(a@, b@, i as int),
        decreases a.len() - i,
    {
        if a[i] != b[i] {
            return (a[i] as u32) < (b[i] as u32);
        }
        i += 1;
    }
    i < b.len()
}

/// Appends `text` to `list`.
pub fn push_text(list: &mut Vec<String>, text: String)
    ensures
        final(list).deep_view() == old(list).deep_view().push(text@),
{
    list.push(text);
    assert(list.deep_view() =~= old(list).deep_view().push(text@));
}

/// Whether `list` holds `text`.
pub fn holds_text(list: &Vec<String>, text: &str) -> (r: bool)
    ensures
        r == list.deep_view().contains(text@),
{
    let wanted = text.to_owned();
    let mut i: usize = 0;
    while i < list.len()
        invariant
            i <= list.len(),
            wanted@ == text@,
            forall|j: int| 0 <= j < i ==> list.deep_view()[j] != text@,
        decreases list.len() - i,
    {
        if list[i] == wanted {
            assert(list.deep_view()[i as int] == text@);
            return true;
        }
        i += 1;
    }
    false
}

/// Whether the text at `at` also stands before `at`.
pub fn seen_before(keys: &Vec<String>, at: usize) -> (r: bool)
    requires
        at < keys.len(),
    ensures
        r == keys.deep_view().take(at as int).contains(keys.deep_view()[at as int]),
{
    let ghost head = keys.deep_view().take(at as int);
    let mut i: usize = 0;
    while i < at
        invariant
            i <= at < keys.len(),
            head == keys.deep_view().take(at as int),
            forall|j: int| 0 <= j < i ==> head[j] != keys[at as int]@,
        decreases at - i,
    {
        if keys[i] == keys[at] {
            assert(head[i as int] == keys[at as int]@);
            return true;
        }
        i += 1;
    }
    false
}

/// The decimal digit for `d` as a string.
fn digit_text(d: u8) -> (r: &'static str)
    requires
        d < 10,
    ensures
        r@ == seq![digit(d as nat)],
{
    proof {
        reveal_strlit("0");
        reveal_strlit("1");
        reveal_strlit("2");
        reveal_strlit("3");
        reveal_strlit("4");
        reveal_strlit("5");
        reveal_strlit("6");
        reveal_strlit("7");
        reveal_strlit("8");
        reveal_strlit("9");
    }
    let r = if d == 0 {
        "0"
    } else if d == 1 {
        "1"
    } else if d == 2 {
        "2"
    } else if d == 3 {
        "3"
    } else if d == 4 {
        "4"
    } else if d == 5 {
        "5"
    } else if d == 6 {
        "6"
    } else if d == 7 {
        "7"
    } else if d == 8 {
        "8"
    } else {
        "9"
    };
    assert(r@ =~= seq![digit(d as nat)]);
    r
}

/// Appends `n` in decimal to `out`.
pub fn push_decimal(out: &mut String, n: usize)
    ensures
        final(out)@ == old(out)@ + decimal(n as nat),
{
    let mut low: Vec<u8> = Vec::new();
    low.push((n % 10) as u8);
    let mut m: usize = n / 10;
    assert(digits_text(low@) =~= seq![digit((n % 10) as nat)]);
    while m > 0
        invariant
            low.len() > 0,
            forall|i: int| 0 <= i < low.len() ==> low[i] < 10,
            decimal(n as nat) == (if m == 0 {
                Seq::<char>::empty()
            } else {
                decimal(m as nat)
            }) + digits_text(low@),
        decreases m,
    {
        let ghost before = low@;
        low.push((m % 10) as u8);
        assert(digits_text(low@) =~= seq![digit((m % 10) as nat)] + digits_text(before));
        assert(decimal(m as nat) =~= (if m / 10 == 0 {
            Seq::<char>::empty()
        } else {
            decimal((m / 10) as nat)
        }) + seq![digit((m % 10) as nat)]);
        m = m / 10;
    }
    let mut i: usize = low.len();
    while i > 0
        invariant
            i <= low.len(),
            forall|j: int| 0 <= j < low.len() ==> low[j] < 10,
            out@ == old(out)@ + digits_text(low@).take(low.len() - i),
        decreases i,
    {
        i -= 1;
        out.append(digit_text(low[i]));
        assert(out@ =~= old(out)@ + digits_text(low@).take(low.len() - i));
    }
    assert(digits_text(low@).take(low.len() as int) =~= digits_text(low@));
}

/// The number of decimal digits of `n`.
pub fn decimal_width(n: usize) -> (r: usize)
    ensures
        r == decimal(n as nat).len(),
{
    let mut r: usize = 1;
    let mut m: usize = n / 10;
    while m > 0
        invariant
            1 <= r,
            decimal(n as nat).len() == r + (if m == 0 {
                0int
            } else {
                decimal(m as nat).len() as int
            }),
            r + m <= usize::MAX,
        decreases m,
    {
        r += 1;
        m = m / 10;
    }
    r
}

/// Appends `n` spaces to `out`.
pub fn push_spaces(out: &mut String, n: usize)
    ensures
        final(out)@ == old(out)@ + spaces(n as nat),
{
    let mut i: usize = 0;
    proof {
        reveal_strlit(" ");
    }
    while i < n
        invariant
            i <= n,
            " "@ == seq![' '],
            out@ == old(out)@ + spaces(i as nat),
        decreases n - i,
    {
        out.append(" ");
        i += 1;
        assert(out@ =~= old(out)@ + spaces(i as nat));
    }
}

} // verus!

//! Characters and names.
use vstd::prelude::*;
use vstd::string::StringExecFns;

verus! {

/// The lower-case form of an ASCII letter; any other character is unchanged.
pub open spec fn lower(c: char) -> char {
    if 'A' <= c && c <= 'Z' {
        ((c as u8) + 32) as char
    } else {
        c
    }
}

/// `s` with every ASCII letter in lower case.
pub open spec fn lowered(s: Seq<char>) -> Seq<char> {
    Seq::new(s.len(), |i: int| lower(s[i]))
}

/// Whether `c` is white space: a space, a tab, a line break or one of the
/// other separators of Unicode.
pub open spec fn is_space(c: char) -> bool {
    let n = c as u32;
    ||| 0x09 <= n <= 0x0D
    ||| n == 0x20
    ||| n == 0x85
    ||| n == 0xA0
    ||| n == 0x1680
    ||| 0x2000 <= n <= 0x200A
    ||| n == 0x2028
    ||| n == 0x2029
    ||| n == 0x202F
    ||| n == 0x205F
    ||| n == 0x3000
}

/// The number of white-space characters at the start of `s`.
pub open spec fn leading_spaces(s: Seq<char>) -> nat
    decreases s.len(),
{
    if s.len() > 0 && is_space(s[0]) {
        1 + leading_spaces(s.subrange(1, s.len() as int))
    } else {
        0
    }
}

/// The number of white-space characters at the end of `s`.
pub open spec fn trailing_spaces(s: Seq<char>) -> nat
    decreases s.len(),
{
    if s.len() > 0 && is_space(s[s.len() - 1]) {
        1 + trailing_spaces(s.subrange(0, s.len() - 1))
    } else {
        0
    }
}

/// `s` without the white space at its two ends.
pub open spec fn trimmed(s: Seq<char>) -> Seq<char> {
    let start = leading_spaces(s);
    if start == s.len() {
        Seq::empty()
    } else {
        s.subrange(start as int, s.len() - trailing_spaces(s))
    }
}

/// The characters of a string.
pub fn chars_of(s: &str) -> (v: Vec<char>)
    ensures
        v@ == s@,
{
    let mut v: Vec<char> = Vec::new();
    for c in it: s.chars()
        invariant
            it.seq() == s@,
            v@ == s@.subrange(0, it.index() as int),
    {
        v.push(c);
        assert(v@ =~= s@.subrange(0, it.index() + 1));
    }
    assert(s@.subrange(0, s@.len() as int) =~= s@);
    v
}

/// Lower case for ASCII letters.
pub fn to_lower(c: char) -> (r: char)
    ensures
        r == lower(c),
{
    if 'A' <= c && c <= 'Z' {
        ((c as u8) + 32) as char
    } else {
        c
    }
}

/// White space, as `is_space` defines it.
pub fn is_whitespace(c: char) -> (r: bool)
    ensures
        r == is_space(c),
{
    let n = c as u32;
    (0x09 <= n && n <= 0x0D) || n == 0x20 || n == 0x85 || n == 0xA0 || n == 0x1680 || (0x2000 <= n && n
        <= 0x200A) || n == 0x2028 || n == 0x2029 || n == 0x202F || n == 0x205F || n == 0x3000
}

/// Whether `chars`, letters in lower case, spell `name`.
pub fn is_name(chars: &Vec<char>, name: &str) -> (r: bool)
    ensures
        r == (lowered(chars@) == name@),
{
    let want = chars_of(name);
    if want.len() != chars.len() {
        return false;
    }
    let mut i: usize = 0;
    while i < chars.len()
        invariant
            i <= chars@.len(),
            want@.len() == chars@.len(),
            want@ == name@,
            forall|k: int| 0 <= k < i ==> lower(chars@[k]) == want@[k],
        decreases chars@.len() - i,
    {
        if to_lower(chars[i]) != want[i] {
            assert(lowered(chars@)[i as int] != name@[i as int]);
            return false;
        }
        i += 1;
    }
    assert(lowered(chars@) =~= name@);
    true
}

/// The first line of `s`: what stands before its first line feed, or all
/// of `s` where it has none.
pub open spec fn first_line(s: Seq<char>) -> Seq<char>
    decreases s.len(),
{
    if s.len() == 0 || s[0] == '\n' {
        Seq::empty()
    } else {
        seq![s[0]] + first_line(s.subrange(1, s.len() as int))
    }
}

/// The first line of `s` is its first `k` characters if no line feed stands
/// before position `k` and one stands there, or `s` ends there.
pub proof fn lemma_first_line(s: Seq<char>, k: int)
    requires
        0 <= k <= s.len(),
        forall|j: int| 0 <= j < k ==> s[j] != '\n',
        k == s.len() || s[k] == '\n',
    ensures
        first_line(s) == s.subrange(0, k),
    decreases k,
{
    if k > 0 {
        lemma_first_line(s.subrange(1, s.len() as int), k - 1);
        assert(s.subrange(0, k) =~= seq![s[0]] + s.subrange(1, s.len() as int).subrange(0, k - 1));
    } else {
        assert(s.subrange(0, 0) =~= Seq::<char>::empty());
    }
}

/// `k` is the number of leading spaces of `s` if only spaces stand before
/// position `k` and none stands there, or `s` ends there.
pub proof fn lemma_leading_spaces(s: Seq<char>, k: int)
    requires
        0 <= k <= s.len(),
        forall|j: int| 0 <= j < k ==> is_space(s[j]),
        k == s.len() || !is_space(s[k]),
    ensures
        leading_spaces(s) == k,
    decreases k,
{
    if k > 0 {
        lemma_leading_spaces(s.subrange(1, s.len() as int), k - 1);
    }
}

/// `k` is the number of trailing spaces of `s` if only spaces stand in its
/// last `k` positions and none stands before them, or `s` begins there.
pub proof fn lemma_trailing_spaces(s: Seq<char>, k: int)
    requires
        0 <= k <= s.len(),
        forall|j: int| s.len() - k <= j < s.len() ==> is_space(s[j]),
        k == s.len() || !is_space(s[s.len() - k - 1]),
    ensures
        trailing_spaces(s) == k,
    decreases k,
{
    if k > 0 {
        lemma_trailing_spaces(s.subrange(0, s.len() - 1), k - 1);
    }
}

/// Copies the characters of `chars` from `from` up to `to`, without the
/// white space at the two ends.
pub fn trim_range(chars: &Vec<char>, from: usize, to: usize) -> (r: Vec<char>)
    requires
        from <= to <= chars@.len(),
    ensures
        r@ == trimmed(chars@.subrange(from as int, to as int)),
{
    let ghost line = chars@.subrange(from as int, to as int);
    let mut lo: usize = from;
    while lo < to && is_whitespace(chars[lo])
        invariant
            from <= lo <= to <= chars@.len(),
            forall|j: int| from <= j < lo ==> is_space(chars@[j]),
        decreases to - lo,
    {
        lo += 1;
    }
    proof {
        lemma_leading_spaces(line, lo - from);
    }
    let mut out: Vec<char> = Vec::new();
    if lo == to {
        return out;
    }
    let mut hi: usize = to;
    while hi > lo && is_whitespace(chars[hi - 1])
        invariant
            lo <= hi <= to <= chars@.len(),
            lo < to,
            !is_space(chars@[lo as int]),
            forall|j: int| hi <= j < to ==> is_space(chars@[j]),
        decreases hi,
    {
        hi -= 1;
    }
    proof {
        lemma_trailing_spaces(line, to - hi);
    }
    let mut i: usize = lo;
    while i < hi
        invariant
            lo <= i <= hi <= chars@.len(),
            out@ == chars@.subrange(lo as int, i as int),
        decreases hi - i,
    {
        out.push(chars[i]);
        assert(out@ =~= chars@.subrange(lo as int, i + 1));
        i += 1;
    }
    assert(out@ =~= trimmed(line));
    out
}

/// The value of a hexadecimal digit, or -1.
pub open spec fn hex_value(c: char) -> int {
    if '0' <= c && c <= '9' {
        c as int - '0' as int
    } else if 'a' <= c && c <= 'f' {
        c as int - 'a' as int + 10
    } else if 'A' <= c && c <= 'F' {
        c as int - 'A' as int + 10
    } else {
        -1
    }
}

/// The value of a hexadecimal digit, if `c` is one.
pub fn hex_digit(c: char) -> (v: Option<u8>)
    ensures
        v.is_some() <==> hex_value(c) >= 0,
        v.is_some() ==> v.unwrap() == hex_value(c) && v.unwrap() < 16,
{
    if '0' <= c && c <= '9' {
        Some((c as u8) - 48)
    } else if 'a' <= c && c <= 'f' {
        Some((c as u8) - 97 + 10)
    } else if 'A' <= c && c <= 'F' {
        Some((c as u8) - 65 + 10)
    } else {
        None
    }
}

/// The length of the word at the start of `s`: the number of characters
/// before its first white space.
pub open spec fn word_len(s: Seq<char>) -> nat
    decreases s.len(),
{
    if s.len() > 0 && !is_space(s[0]) {
        1 + word_len(s.subrange(1, s.len() as int))
    } else {
        0
    }
}

/// `k` is the length of the word at the start of `s` if no white space
/// stands before position `k` and some stands there, or `s` ends there.
pub proof fn lemma_word_len(s: Seq<char>, k: int)
    requires
        0 <= k <= s.len(),
        forall|j: int| 0 <= j < k ==> !is_space(s[j]),
        k == s.len() || is_space(s[k]),
    ensures
        word_len(s) == k,
    decreases k,
{
    if k > 0 {
        lemma_word_len(s.subrange(1, s.len() as int), k - 1);
    }
}

/// `s` without the white space at its start.
pub open spec fn skip_spaces(s: Seq<char>) -> Seq<char> {
    s.subrange(leading_spaces(s) as int, s.len() as int)
}

/// The first word of `s`: what stands between the white space at its start
/// and the next white space. It is empty where `s` holds no word.
pub open spec fn first_word(s: Seq<char>) -> Seq<char> {
    skip_spaces(s).subrange(0, word_len(skip_spaces(s)) as int)
}

/// What follows the first word of `s`.
pub open spec fn after_first_word(s: Seq<char>) -> Seq<char> {
    skip_spaces(s).subrange(word_len(skip_spaces(s)) as int, skip_spaces(s).len() as int)
}

/// Finds the first word of `chars` from position `from` on: where it starts
/// and where it ends.
pub fn next_word(chars: &Vec<char>, from: usize) -> (r: (usize, usize))
    requires
        from <= chars@.len(),
    ensures
        from <= r.0 <= r.1 <= chars@.len(),
        chars@.subrange(r.0 as int, r.1 as int) == first_word(chars@.subrange(from as int, chars@.len() as int)),
        chars@.subrange(r.1 as int, chars@.len() as int) == after_first_word(
            chars@.subrange(from as int, chars@.len() as int),
        ),
{
    let n = chars.len();
    let ghost tail = chars@.subrange(from as int, n as int);
    let mut start: usize = from;
    while start < n && is_whitespace(chars[start])
        invariant
            from <= start <= n,
            n == chars@.len(),
            forall|j: int| from <= j < start ==> is_space(chars@[j]),
        decreases n - start,
    {
        start += 1;
    }
    proof {
        lemma_leading_spaces(tail, start - from);
        assert(skip_spaces(tail) =~= chars@.subrange(start as int, n as int));
    }
    let mut end: usize = start;
    while end < n && !is_whitespace(chars[end])
        invariant
            start <= end <= n,
            n == chars@.len(),
            forall|j: int| start <= j < end ==> !is_space(chars@[j]),
        decreases n - end,
    {
        end += 1;
    }
    proof {
        lemma_word_len(chars@.subrange(start as int, n as int), end - start);
        assert(chars@.subrange(start as int, end as int) =~= first_word(tail));
        assert(chars@.subrange(end as int, n as int) =~= after_first_word(tail));
    }
    (start, end)
}

/// The character for a digit below sixteen, letters in lower case.
pub open spec fn digit_char(d: int) -> char {
    if d < 10 {
        ('0' as int + d) as char
    } else {
        ('a' as int + d - 10) as char
    }
}

/// The hexadecimal digits of `n`, most significant first, without leading
/// zeros.
pub open spec fn hex_digits(n: nat) -> Seq<char>
    decreases n,
{
    if n < 16 {
        seq![digit_char(n as int)]
    } else {
        hex_digits(n / 16).push(digit_char((n % 16) as int))
    }
}

/// The decimal digits of `n`, most significant first, without leading zeros.
pub open spec fn decimal_digits(n: nat) -> Seq<char>
    decreases n,
{
    if n < 10 {
        seq![digit_char(n as int)]
    } else {
        decimal_digits(n / 10).push(digit_char((n % 10) as int))
    }
}

fn digit_str(d: u32) -> (s: &'static str)
    requires
        d < 16,
    ensures
        s@ == seq![digit_char(d as int)],
{
    proof {
        reveal_strlit("0");
        reveal_strlit("1");
        reveal_strlit("2");
        reveal_strlit("3");
        reveal_strlit("4");
        reveal_strlit("5");
        reveal_strlit("6");
        reveal_strlit("7");
        reveal_strlit("8");
        reveal_strlit("9");
        reveal_strlit("a");
        reveal_strlit("b");
        reveal_strlit("c");
        reveal_strlit("d");
        reveal_strlit("e");
        reveal_strlit("f");
    }
    let s = if d == 0 {
        "0"
    } else if d == 1 {
        "1"
    } else if d == 2 {
        "2"
    } else if d == 3 {
        "3"
    } else if d == 4 {
        "4"
    } else if d == 5 {
        "5"
    } else if d == 6 {
        "6"
    } else if d == 7 {
        "7"
    } else if d == 8 {
        "8"
    } else if d == 9 {
        "9"
    } else if d == 10 {
        "a"
    } else if d == 11 {
        "b"
    } else if d == 12 {
        "c"
    } else if d == 13 {
        "d"
    } else if d == 14 {
        "e"
    } else {
        "f"
    };
    assert(s@ =~= seq![digit_char(d as int)]);
    s
}

/// Appends the hexadecimal digits of `n`.
pub fn push_hex(text: &mut String, n: u32)
    ensures
        final(text)@ == old(text)@ + hex_digits(n as nat),
    decreases n,
{
    if n < 16 {
        text.append(digit_str(n));
    } else {
        push_hex(text, n / 16);
        text.append(digit_str(n % 16));
        assert(text@ =~= old(text)@ + hex_digits(n as nat));
    }
}

/// Appends the decimal digits of `n`.
pub fn push_decimal(text: &mut String, n: u32)
    ensures
        final(text)@ == old(text)@ + decimal_digits(n as nat),
    decreases n,
{
    if n < 10 {
        text.append(digit_str(n));
    } else {
        push_decimal(text, n / 10);
        text.append(digit_str(n % 10));
        assert(text@ =~= old(text)@ + decimal_digits(n as nat));
    }
}

} // verus!

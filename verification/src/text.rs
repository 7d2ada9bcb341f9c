//! Character-level text operations: case-insensitive comparison, trimming,
//! splitting on a separator and decimal rendering.
//!
//! Every operation is specified over `Seq<char>`, the view of `str` and `String`.

use vstd::prelude::*;
use vstd::string::*;

verus! {

/// Code point of `c` once the ASCII capital letters are mapped onto the small ones.
pub open spec fn fold_case(c: char) -> int {
    if 'A' <= c && c <= 'Z' {
        c as int + 32
    } else {
        c as int
    }
}

/// Two texts are equal up to the case of their ASCII letters.
pub open spec fn eq_ignore_case(a: Seq<char>, b: Seq<char>) -> bool {
    &&& a.len() == b.len()
    &&& forall|i: int| 0 <= i < a.len() ==> fold_case(#[trigger] a[i]) == fold_case(b[i])
}

/// The characters that carry the Unicode property `White_Space`.
pub open spec fn is_space(c: char) -> bool {
    let n = c as int;
    ||| 0x09 <= n <= 0x0D
    ||| n == 0x20
    ||| n == 0x85
    ||| n == 0xA0
    ||| n == 0x1680
    ||| 0x2000 <= n <= 0x200A
    ||| n == 0x2028
    ||| n == 0x2029
    ||| n == 0x202F
    ||| n == 0x205F
    ||| n == 0x3000
}

/// `s` without its leading white space.
pub open spec fn trim_start(s: Seq<char>) -> Seq<char>
    decreases s.len(),
{
    if s.len() > 0 && is_space(s[0]) {
        trim_start(s.drop_first())
    } else {
        s
    }
}

/// `s` without its trailing white space.
pub open spec fn trim_end(s: Seq<char>) -> Seq<char>
    decreases s.len(),
{
    if s.len() > 0 && is_space(s.last()) {
        trim_end(s.drop_last())
    } else {
        s
    }
}

/// `s` without its leading and trailing white space.
pub open spec fn trimmed(s: Seq<char>) -> Seq<char> {
    trim_end(trim_start(s))
}

/// Position of the first `c` in `s`, or `s.len()` where `s` holds none.
pub open spec fn first_index(s: Seq<char>, c: char) -> int
    decreases s.len(),
{
    if s.len() == 0 || s[0] == c {
        0
    } else {
        1 + first_index(s.drop_first(), c)
    }
}

/// The pieces of `s` between the occurrences of `sep`, in order. There is always
/// at least one piece, and a piece may be empty.
pub open spec fn segments(s: Seq<char>, sep: char) -> Seq<Seq<char>>
    decreases s.len(),
{
    let i = first_index(s, sep);
    if 0 <= i < s.len() {
        seq![s.take(i)] + segments(s.skip(i + 1), sep)
    } else {
        seq![s]
    }
}

/// The pieces written one after another with `sep` between neighbours.
pub open spec fn join(parts: Seq<Seq<char>>, sep: char) -> Seq<char>
    decreases parts.len(),
{
    if parts.len() == 0 {
        Seq::<char>::empty()
    } else if parts.len() == 1 {
        parts[0]
    } else {
        parts[0] + seq![sep] + join(parts.drop_first(), sep)
    }
}

/// The character that stands for the digit `d`.
pub open spec fn digit(d: int) -> char {
    if d == 0 {
        '0'
    } else if d == 1 {
        '1'
    } else if d == 2 {
        '2'
    } else if d == 3 {
        '3'
    } else if d == 4 {
        '4'
    } else if d == 5 {
        '5'
    } else if d == 6 {
        '6'
    } else if d == 7 {
        '7'
    } else if d == 8 {
        '8'
    } else {
        '9'
    }
}

/// `n` in decimal notation, without leading zeros.
pub open spec fn decimal_digits(n: nat) -> Seq<char>
    decreases n,
{
    if n < 10 {
        seq![digit(n as int)]
    } else {
        decimal_digits(n / 10).push(digit((n % 10) as int))
    }
}

/// `first_index` is within the text, nothing before it is `c`, and `c` stands at it
/// unless it is the length.
pub proof fn lemma_first_index(s: Seq<char>, c: char)
    ensures
        0 <= first_index(s, c) <= s.len(),
        forall|j: int| 0 <= j < first_index(s, c) ==> s[j] != c,
        first_index(s, c) < s.len() ==> s[first_index(s, c)] == c,
    decreases s.len(),
{
    if s.len() == 0 || s[0] == c {
    } else {
        let t = s.drop_first();
        lemma_first_index(t, c);
        assert forall|j: int| 0 <= j < first_index(s, c) implies s[j] != c by {
            if j > 0 {
                assert(s[j] == t[j - 1]);
            }
        }
    }
}

/// Any position with the properties of `first_index` is `first_index`.
pub proof fn lemma_first_index_unique(s: Seq<char>, c: char, i: int)
    requires
        0 <= i <= s.len(),
        forall|j: int| 0 <= j < i ==> s[j] != c,
        i < s.len() ==> s[i] == c,
    ensures
        first_index(s, c) == i,
{
    lemma_first_index(s, c);
}

/// The first piece ends at the first separator, and there is a second piece exactly
/// where the text holds a separator; the second piece is the first piece of what
/// follows that separator.
pub proof fn lemma_segments_head(s: Seq<char>, sep: char)
    ensures
        segments(s, sep).len() >= 1,
        segments(s, sep)[0] == s.take(first_index(s, sep)),
        segments(s, sep).len() >= 2 <==> first_index(s, sep) < s.len(),
        first_index(s, sep) < s.len() ==> segments(s, sep)[1] == segments(
            s.skip(first_index(s, sep) + 1),
            sep,
        )[0],
{
    lemma_first_index(s, sep);
    let i = first_index(s, sep);
    if i < s.len() {
        let tail = s.skip(i + 1);
        assert(segments(tail, sep).len() >= 1);
    }
}

/// No piece of `segments(s, sep)` holds `sep`, and there is at least one piece.
pub proof fn lemma_segments_hold_no_separator(s: Seq<char>, sep: char)
    ensures
        segments(s, sep).len() >= 1,
        forall|k: int, j: int|
            0 <= k < segments(s, sep).len() && 0 <= j < segments(s, sep)[k].len()
                ==> #[trigger] segments(s, sep)[k][j] != sep,
    decreases s.len(),
{
    lemma_first_index(s, sep);
    let i = first_index(s, sep);
    if i < s.len() {
        lemma_segments_hold_no_separator(s.skip(i + 1), sep);
    }
}

/// Joining the pieces of a text with the separator gives the text back.
pub proof fn lemma_join_segments(s: Seq<char>, sep: char)
    ensures
        join(segments(s, sep), sep) == s,
    decreases s.len(),
{
    lemma_first_index(s, sep);
    let i = first_index(s, sep);
    if i < s.len() {
        let tail = s.skip(i + 1);
        let parts = segments(s, sep);
        lemma_join_segments(tail, sep);
        assert(parts.drop_first() =~= segments(tail, sep));
    }
}

/// Splitting a joined text gives the pieces back, where no piece holds the separator:
/// `segments` undoes `join`.
pub proof fn lemma_segments_join(parts: Seq<Seq<char>>, sep: char)
    requires
        parts.len() >= 1,
        forall|k: int, j: int|
            0 <= k < parts.len() && 0 <= j < parts[k].len() ==> #[trigger] parts[k][j] != sep,
    ensures
        segments(join(parts, sep), sep) == parts,
    decreases parts.len(),
{
    let s = join(parts, sep);
    if parts.len() == 1 {
        lemma_first_index_unique(s, sep, s.len() as int);
    } else {
        let head = parts[0];
        let others = parts.drop_first();
        let tail = join(others, sep);
        lemma_segments_join(others, sep);
        lemma_first_index_unique(s, sep, head.len() as int);
        assert(s.take(head.len() as int) =~= head);
        assert(s.skip(head.len() as int + 1) =~= tail);
    }
}

/// Skipping the leading white space leaves the text from the first other character on.
pub proof fn lemma_trim_start(s: Seq<char>, a: int)
    requires
        0 <= a <= s.len(),
        forall|j: int| 0 <= j < a ==> is_space(#[trigger] s[j]),
        a < s.len() ==> !is_space(s[a]),
    ensures
        trim_start(s) == s.skip(a),
    decreases a,
{
    if a > 0 {
        lemma_trim_start(s.drop_first(), a - 1);
    }
}

/// Dropping the trailing white space leaves the text up to the last other character.
pub proof fn lemma_trim_end(s: Seq<char>, b: int)
    requires
        0 <= b <= s.len(),
        forall|j: int| b <= j < s.len() ==> is_space(#[trigger] s[j]),
        0 < b ==> !is_space(s[b - 1]),
    ensures
        trim_end(s) == s.take(b),
    decreases s.len() - b,
{
    if b < s.len() {
        lemma_trim_end(s.drop_last(), b);
    }
}

/// The characters of `s`, one by one.
pub fn to_chars(s: &str) -> (out: Vec<char>)
    ensures
        out@ == s@,
{
    let mut out: Vec<char> = Vec::new();
    for c in it: s.chars()
        invariant
            out@ == it.seq().take(it.index() as int),
            it.seq() == s@,
    {
        out.push(c);
    }
    out
}

/// Whether two characters are the same letter, the case of ASCII letters set aside.
pub fn same_letter(a: char, b: char) -> (r: bool)
    ensures
        r == (fold_case(a) == fold_case(b)),
{
    let x: u32 = if 'A' <= a && a <= 'Z' {
        a as u32 + 32
    } else {
        a as u32
    };
    let y: u32 = if 'A' <= b && b <= 'Z' {
        b as u32 + 32
    } else {
        b as u32
    };
    x == y
}

/// Whether two texts match, the case of ASCII letters set aside.
pub fn eq_ignore_ascii_case(a: &str, b: &str) -> (r: bool)
    ensures
        r == eq_ignore_case(a@, b@),
{
    let x = to_chars(a);
    let y = to_chars(b);
    if x.len() != y.len() {
        return false;
    }
    let mut i: usize = 0;
    while i < x.len()
        invariant
            x@ == a@,
            y@ == b@,
            x.len() == y.len(),
            i <= x.len(),
            forall|j: int| 0 <= j < i ==> fold_case(#[trigger] x@[j]) == fold_case(y@[j]),
        decreases x.len() - i,
    {
        if !same_letter(x[i], y[i]) {
            return false;
        }
        i += 1;
    }
    true
}

/// Whether `c` is white space.
pub fn is_whitespace(c: char) -> (r: bool)
    ensures
        r == is_space(c),
{
    let n: u32 = c as u32;
    (0x09 <= n && n <= 0x0D) || n == 0x20 || n == 0x85 || n == 0xA0 || n == 0x1680 || (0x2000
        <= n && n <= 0x200A) || n == 0x2028 || n == 0x2029 || n == 0x202F || n == 0x205F || n
        == 0x3000
}

/// `s` without its leading and trailing white space.
pub fn trim(s: &str) -> (r: &str)
    ensures
        r@ == trimmed(s@),
{
    let cs = to_chars(s);
    let n = cs.len();
    let mut a: usize = 0;
    while a < n
        invariant_except_break
            a <= n,
        invariant
            cs@ == s@,
            n == cs.len(),
            forall|j: int| 0 <= j < a ==> is_space(#[trigger] cs@[j]),
        ensures
            a <= n,
            a < n ==> !is_space(cs@[a as int]),
        decreases n - a,
    {
        if !is_whitespace(cs[a]) {
            break;
        }
        a += 1;
    }
    let mut b: usize = n;
    while b > a
        invariant_except_break
            a <= b <= n,
        invariant
            cs@ == s@,
            n == cs.len(),
            forall|j: int| b <= j < n ==> is_space(#[trigger] cs@[j]),
        ensures
            a <= b <= n,
            a < b ==> !is_space(cs@[b - 1]),
        decreases b,
    {
        if !is_whitespace(cs[b - 1]) {
            break;
        }
        b -= 1;
    }
    proof {
        lemma_trim_start(s@, a as int);
        lemma_trim_end(s@.skip(a as int), b - a);
    }
    s.substring_char(a, b)
}

/// Where `pattern` stands in `text` at `from`, the position just behind it.
pub fn strip_prefix(text: &Vec<char>, from: usize, pattern: &str) -> (behind: Option<usize>)
    ensures
        behind is Some <==> from <= text.len() && pattern@.is_prefix_of(text@.skip(from as int)),
        behind matches Some(at) ==> at == from + pattern@.len(),
{
    if from > text.len() {
        return None;
    }
    let wanted = to_chars(pattern);
    let m = wanted.len();
    if m > text.len() - from {
        return None;
    }
    let mut i: usize = 0;
    while i < m
        invariant
            wanted@ == pattern@,
            m == wanted.len(),
            from + m <= text.len(),
            i <= m,
            forall|j: int| 0 <= j < i ==> wanted@[j] == text@[from + j],
        decreases m - i,
    {
        if wanted[i] != text[from + i] {
            return None;
        }
        i += 1;
    }
    assert(pattern@ =~= text@.skip(from as int).subrange(0, m as int));
    Some(from + m)
}

/// Position of the first `c` at or after `from`, or the length where there is none.
pub fn find(text: &Vec<char>, from: usize, c: char) -> (at: usize)
    ensures
        at <= text.len(),
        from <= text.len() ==> from <= at && at - from == first_index(text@.skip(from as int), c),
        from > text.len() ==> at == text.len(),
{
    if from > text.len() {
        return text.len();
    }
    let mut at: usize = from;
    while at < text.len()
        invariant_except_break
            from <= at <= text.len(),
        invariant
            from <= text.len(),
            forall|j: int| from <= j < at ==> text@[j] != c,
        ensures
            from <= at <= text.len(),
            at < text.len() ==> text@[at as int] == c,
        decreases text.len() - at,
    {
        if text[at] == c {
            break;
        }
        at += 1;
    }
    proof {
        lemma_first_index_unique(text@.skip(from as int), c, at - from);
    }
    at
}

/// The pieces of `s` between the occurrences of `sep`, in order.
pub fn split(s: &str, sep: char) -> (parts: Vec<String>)
    ensures
        parts.deep_view() == segments(s@, sep),
{
    let cs = to_chars(s);
    let n = cs.len();
    let mut parts: Vec<String> = Vec::new();
    let mut start: usize = 0;
    proof {
        assert(s@.skip(0) =~= s@);
    }
    loop
        invariant_except_break
            parts.deep_view() + segments(s@.skip(start as int), sep) == segments(s@, sep),
        invariant
            cs@ == s@,
            n == cs.len(),
            start <= n,
        ensures
            parts.deep_view() == segments(s@, sep),
        decreases n - start,
    {
        let at = find(&cs, start, sep);
        let piece = s.substring_char(start, at).to_owned();
        let ghost before = parts.deep_view();
        let ghost rest = s@.skip(start as int);
        parts.push(piece);
        proof {
            assert(rest.take(at - start) =~= s@.subrange(start as int, at as int));
        }
        if at == n {
            break;
        }
        proof {
            assert(rest.skip(at - start + 1) =~= s@.skip(at + 1));
            assert(before + (seq![piece@] + segments(s@.skip(at + 1), sep)) =~= before.push(
                piece@,
            ) + segments(s@.skip(at + 1), sep));
        }
        start = at + 1;
    }
    parts
}

/// Text of a single digit.
fn digit_text(d: usize) -> (r: &'static str)
    requires
        d < 10,
    ensures
        r@ == seq![digit(d as int)],
{
    proof {
        reveal_strlit("0");
        reveal_strlit("1");
        reveal_strlit("2");
        reveal_strlit("3");
        reveal_strlit("4");
        reveal_strlit("5");
        reveal_strlit("6");
        reveal_strlit("7");
        reveal_strlit("8");
        reveal_strlit("9");
    }
    if d == 0 {
        "0"
    } else if d == 1 {
        "1"
    } else if d == 2 {
        "2"
    } else if d == 3 {
        "3"
    } else if d == 4 {
        "4"
    } else if d == 5 {
        "5"
    } else if d == 6 {
        "6"
    } else if d == 7 {
        "7"
    } else if d == 8 {
        "8"
    } else {
        "9"
    }
}

/// Appends `n` in decimal notation to `out`.
pub fn push_decimal(out: &mut String, n: usize)
    ensures
        final(out)@ == old(out)@ + decimal_digits(n as nat),
    decreases n,
{
    if n >= 10 {
        push_decimal(out, n / 10);
    }
    out.append(digit_text(n % 10));
    proof {
        if n >= 10 {
            assert(old(out)@ + decimal_digits((n / 10) as nat) + seq![digit((n % 10) as int)]
                =~= old(out)@ + decimal_digits((n / 10) as nat).push(digit((n % 10) as int)));
        }
    }
}

/// `n` in decimal notation, without leading zeros.
pub fn decimal(n: usize) -> (r: String)
    ensures
        r@ == decimal_digits(n as nat),
{
    let mut out = String::new();
    push_decimal(&mut out, n);
    out
}

} // verus!

//! Character classes and the text operations the tokenizers are built from,
//! stated over sequences of characters.

use vstd::prelude::*;
use vstd::string::StringExecFns;

verus! {

/// Whether `c` is whitespace as Unicode has it (`White_Space`).
pub open spec fn is_whitespace(c: char) -> bool {
    let n = c as u32;
    ||| 0x09 <= n <= 0x0D
    ||| n == 0x20
    ||| n == 0x85
    ||| n == 0xA0
    ||| n == 0x1680
    ||| 0x2000 <= n <= 0x200A
    ||| n == 0x2028
    ||| n == 0x2029
    ||| n == 0x202F
    ||| n == 0x205F
    ||| n == 0x3000
}

/// Whether all of `s` is whitespace.
pub open spec fn all_whitespace(s: Seq<char>) -> bool {
    forall|k: int| 0 <= k < s.len() ==> is_whitespace(#[trigger] s[k])
}

/// Whether `s` does not start with whitespace.
pub open spec fn starts_clean(s: Seq<char>) -> bool {
    s.len() == 0 || !is_whitespace(s[0])
}

/// Whether `s` neither starts nor ends with whitespace.
pub open spec fn is_trimmed(s: Seq<char>) -> bool {
    s.len() == 0 || (!is_whitespace(s[0]) && !is_whitespace(s.last()))
}

/// The first index at or after `i` that holds no space character, or the
/// length of `s` when only spaces follow.
pub open spec fn skip_spaces(s: Seq<char>, i: int) -> int
    decreases s.len() - i,
{
    if 0 <= i < s.len() && s[i] == ' ' {
        skip_spaces(s, i + 1)
    } else {
        i
    }
}

/// How many space characters `s` starts with.
pub open spec fn leading_spaces(s: Seq<char>) -> nat {
    skip_spaces(s, 0) as nat
}

/// The first index at or after `i` that holds no whitespace, or the length of
/// `s` when only whitespace follows.
pub open spec fn skip_whitespace(s: Seq<char>, i: int) -> int
    decreases s.len() - i,
{
    if 0 <= i < s.len() && is_whitespace(s[i]) {
        skip_whitespace(s, i + 1)
    } else {
        i
    }
}

/// The least `b <= j` such that everything in `s` from `b` up to `j` is
/// whitespace.
pub open spec fn skip_back_whitespace(s: Seq<char>, j: int) -> int
    decreases j,
{
    if 0 < j <= s.len() && is_whitespace(s[j - 1]) {
        skip_back_whitespace(s, j - 1)
    } else {
        j
    }
}

/// `s` without its leading whitespace.
pub open spec fn trim_start(s: Seq<char>) -> Seq<char> {
    s.subrange(skip_whitespace(s, 0), s.len() as int)
}

/// `s` without its trailing whitespace.
pub open spec fn trim_end(s: Seq<char>) -> Seq<char> {
    s.subrange(0, skip_back_whitespace(s, s.len() as int))
}

/// `s` without its leading and trailing whitespace.
pub open spec fn trim(s: Seq<char>) -> Seq<char> {
    trim_end(trim_start(s))
}

/// Whether `s` holds nothing but whitespace.
pub open spec fn is_blank(s: Seq<char>) -> bool {
    skip_whitespace(s, 0) == s.len()
}

/// The first index at or after `i` that holds `c`, or the length of `s` when
/// `c` does not occur from `i` on.
pub open spec fn find_char(s: Seq<char>, c: char, i: int) -> int
    decreases s.len() - i,
{
    if 0 <= i < s.len() && s[i] != c {
        find_char(s, c, i + 1)
    } else {
        i
    }
}

/// Whether `c` occurs in `s`.
pub open spec fn has_char(s: Seq<char>, c: char) -> bool {
    find_char(s, c, 0) < s.len()
}

/// The part of `s` before the first `c` (all of `s` when `c` does not occur).
pub open spec fn before_first(s: Seq<char>, c: char) -> Seq<char> {
    s.subrange(0, find_char(s, c, 0))
}

/// The part of `s` after the first `c`; meant for an `s` in which `c` occurs.
pub open spec fn after_first(s: Seq<char>, c: char) -> Seq<char> {
    s.subrange(find_char(s, c, 0) + 1, s.len() as int)
}

/// The lines of a text that hold more than whitespace, in order. A line ends
/// at a line feed or at the end of the text.
pub open spec fn nonblank_lines(s: Seq<char>) -> Seq<Seq<char>>
    decreases s.len(),
{
    let p = find_char(s, '\n', 0);
    let line = s.subrange(0, p);
    let head = if is_blank(line) {
        Seq::<Seq<char>>::empty()
    } else {
        seq![line]
    };
    if 0 <= p < s.len() {
        head + nonblank_lines(s.subrange(p + 1, s.len() as int))
    } else {
        head
    }
}

/// Whether `bounds` are the places of the lines `lines` in `s`, one for one.
pub open spec fn bounds_of(
    s: Seq<char>,
    bounds: Seq<(usize, usize)>,
    lines: Seq<Seq<char>>,
) -> bool {
    &&& bounds.len() == lines.len()
    &&& forall|i: int|
        0 <= i < bounds.len() ==> {
            &&& (#[trigger] bounds[i]).0 <= bounds[i].1 <= s.len()
            &&& s.subrange(bounds[i].0 as int, bounds[i].1 as int) == lines[i]
        }
}

/// The blanks that stand for `level` levels of nesting: two per level.
pub open spec fn indentation(level: nat) -> Seq<char>
    decreases level,
{
    if level == 0 {
        Seq::empty()
    } else {
        indentation((level - 1) as nat) + "  "@
    }
}

/// The character of a decimal digit.
pub open spec fn digit(d: nat) -> char {
    if d == 0 {
        '0'
    } else if d == 1 {
        '1'
    } else if d == 2 {
        '2'
    } else if d == 3 {
        '3'
    } else if d == 4 {
        '4'
    } else if d == 5 {
        '5'
    } else if d == 6 {
        '6'
    } else if d == 7 {
        '7'
    } else if d == 8 {
        '8'
    } else {
        '9'
    }
}

/// A number in decimal, without leading zeros.
pub open spec fn decimal(n: nat) -> Seq<char>
    decreases n,
{
    if n < 10 {
        seq![digit(n)]
    } else {
        decimal(n / 10).push(digit(n % 10))
    }
}

/// `skip_spaces` stops at the first index that holds no space.
pub proof fn lemma_skip_spaces_is(s: Seq<char>, i: int, a: int)
    requires
        0 <= i <= a <= s.len(),
        forall|k: int| i <= k < a ==> s[k] == ' ',
        a == s.len() || s[a] != ' ',
    ensures
        skip_spaces(s, i) == a,
    decreases a - i,
{
    if i < a {
        lemma_skip_spaces_is(s, i + 1, a);
    }
}

/// What `skip_spaces` returns: everything it passed is a space, and it stopped
/// at the end or at a character that is not.
pub proof fn lemma_skip_spaces_props(s: Seq<char>, i: int)
    requires
        0 <= i <= s.len(),
    ensures
        i <= skip_spaces(s, i) <= s.len(),
        forall|k: int| i <= k < skip_spaces(s, i) ==> s[k] == ' ',
        skip_spaces(s, i) == s.len() || s[skip_spaces(s, i)] != ' ',
    decreases s.len() - i,
{
    if i < s.len() && s[i] == ' ' {
        lemma_skip_spaces_props(s, i + 1);
    }
}

/// `skip_whitespace` stops at the first index that holds no whitespace.
pub proof fn lemma_skip_whitespace_is(s: Seq<char>, i: int, a: int)
    requires
        0 <= i <= a <= s.len(),
        forall|k: int| i <= k < a ==> is_whitespace(#[trigger] s[k]),
        a == s.len() || !is_whitespace(s[a]),
    ensures
        skip_whitespace(s, i) == a,
    decreases a - i,
{
    if i < a {
        lemma_skip_whitespace_is(s, i + 1, a);
    }
}

/// What `skip_whitespace` returns: everything it passed is whitespace, and it
/// stopped at the end or at a character that is not.
pub proof fn lemma_skip_whitespace_props(s: Seq<char>, i: int)
    requires
        0 <= i <= s.len(),
    ensures
        i <= skip_whitespace(s, i) <= s.len(),
        forall|k: int| i <= k < skip_whitespace(s, i) ==> is_whitespace(#[trigger] s[k]),
        skip_whitespace(s, i) == s.len() || !is_whitespace(s[skip_whitespace(s, i)]),
    decreases s.len() - i,
{
    if i < s.len() && is_whitespace(s[i]) {
        lemma_skip_whitespace_props(s, i + 1);
    }
}

/// `skip_back_whitespace` stops below the last index that holds no whitespace.
pub proof fn lemma_skip_back_whitespace_is(s: Seq<char>, j: int, b: int)
    requires
        0 <= b <= j <= s.len(),
        forall|k: int| b <= k < j ==> is_whitespace(#[trigger] s[k]),
        b == 0 || !is_whitespace(s[b - 1]),
    ensures
        skip_back_whitespace(s, j) == b,
    decreases j - b,
{
    if b < j {
        lemma_skip_back_whitespace_is(s, j - 1, b);
    }
}

/// What `skip_back_whitespace` returns.
pub proof fn lemma_skip_back_whitespace_props(s: Seq<char>, j: int)
    requires
        0 <= j <= s.len(),
    ensures
        0 <= skip_back_whitespace(s, j) <= j,
        forall|k: int| skip_back_whitespace(s, j) <= k < j ==> is_whitespace(#[trigger] s[k]),
        skip_back_whitespace(s, j) == 0 || !is_whitespace(s[skip_back_whitespace(s, j) - 1]),
    decreases j,
{
    if 0 < j && is_whitespace(s[j - 1]) {
        lemma_skip_back_whitespace_props(s, j - 1);
    }
}

/// `find_char` stops at the first index that holds `c`.
pub proof fn lemma_find_char_is(s: Seq<char>, c: char, i: int, p: int)
    requires
        0 <= i <= p <= s.len(),
        forall|k: int| i <= k < p ==> s[k] != c,
        p == s.len() || s[p] == c,
    ensures
        find_char(s, c, i) == p,
    decreases p - i,
{
    if i < p {
        lemma_find_char_is(s, c, i + 1, p);
    }
}

/// What `find_char` returns.
pub proof fn lemma_find_char_props(s: Seq<char>, c: char, i: int)
    requires
        0 <= i <= s.len(),
    ensures
        i <= find_char(s, c, i) <= s.len(),
        forall|k: int| i <= k < find_char(s, c, i) ==> s[k] != c,
        find_char(s, c, i) == s.len() || s[find_char(s, c, i)] == c,
    decreases s.len() - i,
{
    if i < s.len() && s[i] != c {
        lemma_find_char_props(s, c, i + 1);
    }
}

/// A text that does not start with whitespace has no leading space, and
/// nothing is taken off its start.
pub proof fn lemma_clean_start(t: Seq<char>)
    requires
        starts_clean(t),
    ensures
        leading_spaces(t) == 0,
        trim_start(t) == t,
{
}

/// A text without its leading whitespace does not start with whitespace, and
/// it is what is left of the text behind the whitespace.
pub proof fn lemma_trim_start_clean(s: Seq<char>)
    ensures
        starts_clean(trim_start(s)),
        trim_start(s).len() <= s.len(),
        s.len() > 0 && !is_whitespace(s[0]) ==> trim_start(s) == s,
{
    lemma_skip_whitespace_props(s, 0);
}

/// A trimmed text neither starts nor ends with whitespace.
pub proof fn lemma_trim_is_trimmed(s: Seq<char>)
    ensures
        is_trimmed(trim(s)),
{
    lemma_skip_whitespace_props(s, 0);
    let t = trim_start(s);
    lemma_skip_back_whitespace_props(t, t.len() as int);
}

/// Whitespace put around a text that neither starts nor ends with whitespace
/// is what trimming takes off again.
pub proof fn lemma_trim_padded(pre: Seq<char>, x: Seq<char>, post: Seq<char>)
    requires
        all_whitespace(pre),
        all_whitespace(post),
        is_trimmed(x),
    ensures
        trim(pre + x + post) == x,
{
    let s = pre + x + post;
    let a = pre.len() as int;
    if x.len() == 0 {
        lemma_skip_whitespace_is(s, 0, s.len() as int);
    } else {
        lemma_skip_whitespace_is(s, 0, a);
        let t = trim_start(s);
        let b = x.len() as int;
        lemma_skip_back_whitespace_is(t, t.len() as int, b);
    }
}

/// The trimmed form of the first `p` characters of a text that does not start
/// with whitespace is a beginning of that text, and not an empty one.
pub proof fn lemma_trim_of_clean_prefix(t: Seq<char>, p: int) -> (b: int)
    requires
        0 < p <= t.len(),
        !is_whitespace(t[0]),
    ensures
        1 <= b <= p,
        trim(t.subrange(0, p)) == t.subrange(0, b),
{
    let head = t.subrange(0, p);
    lemma_trim_start_clean(head);
    lemma_skip_back_whitespace_props(head, p);
    skip_back_whitespace(head, p)
}

/// The indentation of `level` levels is `2 * level` spaces.
pub proof fn lemma_indentation_is_spaces(level: nat)
    ensures
        indentation(level).len() == 2 * level,
        forall|k: int| 0 <= k < 2 * level ==> indentation(level)[k] == ' ',
    decreases level,
{
    reveal_strlit("  ");
    if level > 0 {
        lemma_indentation_is_spaces((level - 1) as nat);
    }
}

/// Behind an indentation, a text has two more leading spaces for each level,
/// and the same text is left once the leading whitespace is taken off.
pub proof fn lemma_indented(level: nat, body: Seq<char>)
    ensures
        leading_spaces(indentation(level) + body) == 2 * level + leading_spaces(body),
        trim_start(indentation(level) + body) == trim_start(body),
{
    let pad = indentation(level);
    let s = pad + body;
    lemma_indentation_is_spaces(level);
    lemma_skip_spaces_props(body, 0);
    lemma_skip_whitespace_props(body, 0);
    let m = skip_spaces(body, 0);
    lemma_skip_spaces_is(s, 0, 2 * level + m);
    let w = skip_whitespace(body, 0);
    lemma_skip_whitespace_is(s, 0, 2 * level + w);
}

/// Decides `is_whitespace`.
pub fn char_is_whitespace(c: char) -> (b: bool)
    ensures
        b == is_whitespace(c),
{
    let n: u32 = c as u32;
    (0x09 <= n && n <= 0x0D) || n == 0x20 || n == 0x85 || n == 0xA0 || n == 0x1680 || (0x2000 <= n
        && n <= 0x200A) || n == 0x2028 || n == 0x2029 || n == 0x202F || n == 0x205F || n == 0x3000
}

/// The characters of `s`, in order.
pub fn to_chars(s: &str) -> (v: Vec<char>)
    ensures
        v@ == s@,
{
    let mut v: Vec<char> = Vec::new();
    for c in it: s.chars()
        invariant
            v@ == it.seq().take(it.index() as int),
            it.seq() == s@,
    {
        v.push(c);
    }
    v
}

/// `String::push` of the standard library: it appends the one character to
/// the end of the string and leaves the rest as it was.
pub assume_specification[ String::push ](s: &mut String, c: char)
    ensures
        final(s)@ == old(s)@.push(c),
;

/// The characters of `chars` from index `lo` up to `hi`, as a string.
pub fn string_between(chars: &Vec<char>, lo: usize, hi: usize) -> (r: String)
    requires
        lo <= hi <= chars.len(),
    ensures
        r@ == chars@.subrange(lo as int, hi as int),
{
    let mut r = String::new();
    let mut i: usize = lo;
    while i < hi
        invariant
            lo <= i <= hi <= chars.len(),
            r@ == chars@.subrange(lo as int, i as int),
        decreases hi - i,
    {
        r.push(chars[i]);
        i += 1;
    }
    r
}

/// Counts the space characters that the text between `lo` and `hi` starts
/// with.
pub fn count_leading_spaces(chars: &Vec<char>, lo: usize, hi: usize) -> (n: usize)
    requires
        lo <= hi <= chars.len(),
    ensures
        n == leading_spaces(chars@.subrange(lo as int, hi as int)),
        n <= hi - lo,
{
    let mut i: usize = lo;
    while i < hi && chars[i] == ' '
        invariant
            lo <= i <= hi <= chars.len(),
            forall|k: int| lo <= k < i ==> chars@[k] == ' ',
        decreases hi - i,
    {
        i += 1;
    }
    proof {
        let t = chars@.subrange(lo as int, hi as int);
        lemma_skip_spaces_is(t, 0, i - lo);
    }
    i - lo
}

/// Where the text between `lo` and `hi` starts once its leading whitespace is
/// taken off.
pub fn trim_start_bound(chars: &Vec<char>, lo: usize, hi: usize) -> (a: usize)
    requires
        lo <= hi <= chars.len(),
    ensures
        lo <= a <= hi,
        chars@.subrange(a as int, hi as int) == trim_start(chars@.subrange(lo as int, hi as int)),
        a - lo == skip_whitespace(chars@.subrange(lo as int, hi as int), 0),
{
    let mut a: usize = lo;
    while a < hi && char_is_whitespace(chars[a])
        invariant
            lo <= a <= hi <= chars.len(),
            forall|k: int| lo <= k < a ==> is_whitespace(#[trigger] chars@[k]),
        decreases hi - a,
    {
        a += 1;
    }
    proof {
        let t = chars@.subrange(lo as int, hi as int);
        lemma_skip_whitespace_is(t, 0, a - lo);
    }
    a
}

/// Where the text between `lo` and `hi` ends once its trailing whitespace is
/// taken off.
pub fn trim_end_bound(chars: &Vec<char>, lo: usize, hi: usize) -> (b: usize)
    requires
        lo <= hi <= chars.len(),
    ensures
        lo <= b <= hi,
        chars@.subrange(lo as int, b as int) == trim_end(chars@.subrange(lo as int, hi as int)),
{
    let mut b: usize = hi;
    while b > lo && char_is_whitespace(chars[b - 1])
        invariant
            lo <= b <= hi <= chars.len(),
            forall|k: int| b <= k < hi ==> is_whitespace(#[trigger] chars@[k]),
        decreases b - lo,
    {
        b -= 1;
    }
    proof {
        let t = chars@.subrange(lo as int, hi as int);
        lemma_skip_back_whitespace_is(t, t.len() as int, b - lo);
    }
    b
}

/// The bounds of the text between `lo` and `hi` once whitespace is taken off
/// both ends.
pub fn trim_bounds(chars: &Vec<char>, lo: usize, hi: usize) -> (r: (usize, usize))
    requires
        lo <= hi <= chars.len(),
    ensures
        lo <= r.0 <= r.1 <= hi,
        chars@.subrange(r.0 as int, r.1 as int) == trim(chars@.subrange(lo as int, hi as int)),
{
    let a = trim_start_bound(chars, lo, hi);
    let b = trim_end_bound(chars, a, hi);
    (a, b)
}

/// The first place between `lo` and `hi` that holds `c`, or `hi`.
pub fn find_between(chars: &Vec<char>, lo: usize, hi: usize, c: char) -> (p: usize)
    requires
        lo <= hi <= chars.len(),
    ensures
        lo <= p <= hi,
        p - lo == find_char(chars@.subrange(lo as int, hi as int), c, 0),
{
    let mut p: usize = lo;
    while p < hi && chars[p] != c
        invariant
            lo <= p <= hi <= chars.len(),
            forall|k: int| lo <= k < p ==> chars@[k] != c,
        decreases hi - p,
    {
        p += 1;
    }
    proof {
        let t = chars@.subrange(lo as int, hi as int);
        lemma_find_char_is(t, c, 0, p - lo);
    }
    p
}

/// Where the lines of a text that hold more than whitespace start and end.
pub fn nonblank_line_bounds(chars: &Vec<char>) -> (bounds: Vec<(usize, usize)>)
    ensures
        bounds_of(chars@, bounds@, nonblank_lines(chars@)),
{
    let n = chars.len();
    let mut bounds: Vec<(usize, usize)> = Vec::new();
    let ghost mut found: Seq<Seq<char>> = Seq::empty();
    let mut start: usize = 0;
    let mut done = false;
    proof {
        assert(chars@.subrange(0, n as int) =~= chars@);
    }
    while !done
        invariant
            n == chars.len(),
            start <= n,
            bounds_of(chars@, bounds@, found),
            !done ==> found + nonblank_lines(chars@.subrange(start as int, n as int))
                == nonblank_lines(chars@),
            done ==> found == nonblank_lines(chars@),
        decreases n - start + (if done { 0int } else { 1int }),
    {
        let ghost rest = chars@.subrange(start as int, n as int);
        let p = find_between(chars, start, n, '\n');
        let ghost line = chars@.subrange(start as int, p as int);
        assert(rest.subrange(0, p - start) =~= line);
        let first = trim_start_bound(chars, start, p);
        if first < p {
            bounds.push((start, p));
            proof {
                found = found.push(line);
            }
        }
        if p < n {
            assert(rest.subrange(p - start + 1, rest.len() as int) =~= chars@.subrange(
                p + 1,
                n as int,
            ));
            start = p + 1;
        } else {
            done = true;
        }
    }
    bounds
}

/// The blanks that stand for `level` levels of nesting.
pub fn indentation_string(level: usize) -> (pad: String)
    ensures
        pad@ == indentation(level as nat),
{
    let mut pad = String::new();
    let mut i: usize = 0;
    while i < level
        invariant
            i <= level,
            pad@ == indentation(i as nat),
        decreases level - i,
    {
        pad.append("  ");
        i += 1;
    }
    pad
}

/// Decides `digit`.
fn digit_char(d: u128) -> (c: char)
    requires
        d < 10,
    ensures
        c == digit(d as nat),
{
    if d == 0 {
        '0'
    } else if d == 1 {
        '1'
    } else if d == 2 {
        '2'
    } else if d == 3 {
        '3'
    } else if d == 4 {
        '4'
    } else if d == 5 {
        '5'
    } else if d == 6 {
        '6'
    } else if d == 7 {
        '7'
    } else if d == 8 {
        '8'
    } else {
        '9'
    }
}

/// Writes a number in decimal.
pub fn decimal_string(n: u128) -> (s: String)
    ensures
        s@ == decimal(n as nat),
    decreases n,
{
    if n < 10 {
        let mut s = String::new();
        s.push(digit_char(n));
        s
    } else {
        let mut s = decimal_string(n / 10);
        s.push(digit_char(n % 10));
        s
    }
}

} // verus!

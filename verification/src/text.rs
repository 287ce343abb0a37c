//! Character-level helpers: whitespace, decimal numbers and string building.

use vstd::prelude::*;

verus! {

/// The decimal digit character for `d < 10`.
pub open spec fn digit_char(d: nat) -> char {
    if d == 0 { '0' } else if d == 1 { '1' } else if d == 2 { '2' } else if d == 3 { '3' }
    else if d == 4 { '4' } else if d == 5 { '5' } else if d == 6 { '6' } else if d == 7 { '7' }
    else if d == 8 { '8' } else { '9' }
}

/// The decimal text of a natural number, without leading zeros.
pub open spec fn decimal(n: nat) -> Seq<char>
    decreases n,
{
    if n < 10 {
        seq![digit_char(n)]
    } else {
        decimal(n / 10).push(digit_char(n % 10))
    }
}

fn digit_text(d: u64) -> (res: &'static str)
    requires
        d < 10,
    ensures
        res@ == seq![digit_char(d as nat)],
{
    if d == 0 {
        proof { reveal_strlit("0"); }
        "0"
    } else if d == 1 {
        proof { reveal_strlit("1"); }
        "1"
    } else if d == 2 {
        proof { reveal_strlit("2"); }
        "2"
    } else if d == 3 {
        proof { reveal_strlit("3"); }
        "3"
    } else if d == 4 {
        proof { reveal_strlit("4"); }
        "4"
    } else if d == 5 {
        proof { reveal_strlit("5"); }
        "5"
    } else if d == 6 {
        proof { reveal_strlit("6"); }
        "6"
    } else if d == 7 {
        proof { reveal_strlit("7"); }
        "7"
    } else if d == 8 {
        proof { reveal_strlit("8"); }
        "8"
    } else {
        proof { reveal_strlit("9"); }
        "9"
    }
}

/// Append the decimal text of `n` to `out`.
pub fn push_decimal(out: &mut String, n: u64)
    ensures
        final(out)@ == old(out)@ + decimal(n as nat),
    decreases n,
{
    if n < 10 {
        out.append(digit_text(n));
    } else {
        push_decimal(out, n / 10);
        out.append(digit_text(n % 10));
        proof {
            assert(old(out)@ + decimal(n as nat) =~= old(out)@ + decimal((n / 10) as nat) + seq![digit_char((n % 10) as nat)]);
        }
    }
}

/// Whether two strings hold the same characters.
pub fn same_text(a: &str, b: &str) -> (res: bool)
    ensures
        res == (a@ == b@),
{
    let x = a.to_owned();
    let y = b.to_owned();
    x == y
}

/// Whether `c` is a Unicode `White_Space` character, as `char::is_whitespace` reports.
pub open spec fn spec_is_whitespace(c: char) -> bool {
    let u = c as u32;
    ||| 0x09 <= u <= 0x0D
    ||| u == 0x20
    ||| u == 0x85
    ||| u == 0xA0
    ||| u == 0x1680
    ||| 0x2000 <= u <= 0x200A
    ||| u == 0x2028
    ||| u == 0x2029
    ||| u == 0x202F
    ||| u == 0x205F
    ||| u == 0x3000
}

/// Whether `c` is whitespace.
pub fn is_whitespace(c: char) -> (res: bool)
    ensures
        res == spec_is_whitespace(c),
{
    let u = c as u32;
    (0x09 <= u && u <= 0x0D) || u == 0x20 || u == 0x85 || u == 0xA0 || u == 0x1680 || (0x2000 <= u
        && u <= 0x200A) || u == 0x2028 || u == 0x2029 || u == 0x202F || u == 0x205F || u == 0x3000
}

/// Whether `c` is an ASCII decimal digit.
pub open spec fn spec_is_digit(c: char) -> bool {
    48 <= c as u32 <= 57
}

/// The value of a sequence of ASCII digits.
pub open spec fn digits_value(s: Seq<char>) -> nat
    decreases s.len(),
{
    if s.len() == 0 {
        0
    } else {
        digits_value(s.drop_last()) * 10 + (s.last() as u32 - 48) as nat
    }
}

/// Whether every character of `d` is an ASCII digit.
pub open spec fn all_digits(d: Seq<char>) -> bool {
    forall|i: int| 0 <= i < d.len() ==> spec_is_digit(#[trigger] d[i])
}

/// `s` without one leading `+`.
pub open spec fn unsigned_part(s: Seq<char>) -> Seq<char> {
    if s.len() > 0 && s[0] == '+' {
        s.drop_first()
    } else {
        s
    }
}

/// What `usize::from_str` gives: an optional `+` followed by at least one
/// ASCII digit, with a value that fits in `usize`.
pub open spec fn parse_usize_spec(s: Seq<char>) -> Option<usize> {
    let d = unsigned_part(s);
    if d.len() > 0 && all_digits(d) && digits_value(d) <= usize::MAX {
        Some(digits_value(d) as usize)
    } else {
        None
    }
}

/// Index of the first whitespace-free position at or after `i`.
pub open spec fn skip_ws(s: Seq<char>, i: int) -> int
    decreases s.len() - i,
{
    if 0 <= i < s.len() && spec_is_whitespace(s[i]) {
        skip_ws(s, i + 1)
    } else {
        i
    }
}

/// End of `s[lo..j]` once trailing whitespace is removed.
pub open spec fn back_ws(s: Seq<char>, lo: int, j: int) -> int
    decreases j - lo,
{
    if lo < j && j <= s.len() && spec_is_whitespace(s[j - 1]) {
        back_ws(s, lo, j - 1)
    } else {
        j
    }
}

/// `s` without leading and trailing whitespace, as `str::trim` gives it.
pub open spec fn trimmed(s: Seq<char>) -> Seq<char> {
    let a = skip_ws(s, 0);
    s.subrange(a, back_ws(s, a, s.len() as int))
}

/// Index of the first `c` in `s` at or after `from`, or `s.len()` when there is none.
pub open spec fn find_char(s: Seq<char>, c: char, from: int) -> int
    decreases s.len() - from,
{
    if from >= s.len() {
        s.len() as int
    } else if s[from] == c {
        from
    } else {
        find_char(s, c, from + 1)
    }
}

/// The parts `str::splitn(3, ' ')` gives.
pub open spec fn split3(s: Seq<char>) -> Seq<Seq<char>> {
    let i1 = find_char(s, ' ', 0);
    if i1 >= s.len() {
        seq![s]
    } else {
        let i2 = find_char(s, ' ', i1 + 1);
        if i2 >= s.len() {
            seq![s.subrange(0, i1), s.subrange(i1 + 1, s.len() as int)]
        } else {
            seq![s.subrange(0, i1), s.subrange(i1 + 1, i2), s.subrange(i2 + 1, s.len() as int)]
        }
    }
}

/// Whitespace-separated words of `s[i..]`, given the word `cur` under way and
/// the words `acc` already complete.
pub open spec fn words_from(s: Seq<char>, i: int, cur: Seq<char>, acc: Seq<Seq<char>>) -> Seq<Seq<char>>
    decreases s.len() - i,
{
    if i >= s.len() {
        if cur.len() > 0 {
            acc.push(cur)
        } else {
            acc
        }
    } else if spec_is_whitespace(s[i]) {
        words_from(s, i + 1, Seq::empty(), if cur.len() > 0 { acc.push(cur) } else { acc })
    } else {
        words_from(s, i + 1, cur.push(s[i]), acc)
    }
}

/// The words `str::split_whitespace` gives.
pub open spec fn words(s: Seq<char>) -> Seq<Seq<char>> {
    words_from(s, 0, Seq::empty(), Seq::empty())
}

proof fn lemma_skip_ws(s: Seq<char>, i: int)
    requires
        0 <= i <= s.len(),
    ensures
        i <= skip_ws(s, i) <= s.len(),
        skip_ws(s, i) < s.len() ==> !spec_is_whitespace(s[skip_ws(s, i)]),
        forall|k: int| i <= k < skip_ws(s, i) ==> spec_is_whitespace(#[trigger] s[k]),
    decreases s.len() - i,
{
    if i < s.len() && spec_is_whitespace(s[i]) {
        lemma_skip_ws(s, i + 1);
    }
}

/// Stripping trailing whitespace stays within `lo ..= j` and stops after a
/// character that is not whitespace.
pub proof fn lemma_back_ws_bounds(s: Seq<char>, lo: int, j: int)
    requires
        0 <= lo <= j <= s.len(),
    ensures
        lo <= back_ws(s, lo, j) <= j,
        back_ws(s, lo, j) > lo ==> !spec_is_whitespace(s[back_ws(s, lo, j) - 1]),
        forall|k: int| back_ws(s, lo, j) <= k < j ==> spec_is_whitespace(#[trigger] s[k]),
    decreases j - lo,
{
    if lo < j && spec_is_whitespace(s[j - 1]) {
        lemma_back_ws_bounds(s, lo, j - 1);
    }
}

/// `find_char` gives a position between `from` and the end.
pub proof fn lemma_find_bounds(s: Seq<char>, c: char, from: int)
    requires
        0 <= from <= s.len(),
    ensures
        from <= find_char(s, c, from) <= s.len(),
    decreases s.len() - from,
{
    if from < s.len() && s[from] != c {
        lemma_find_bounds(s, c, from + 1);
    }
}

/// Stripping trailing whitespace down to `lo` passes `mid` only when
/// everything in `mid .. j` is whitespace.
pub proof fn lemma_back_ws_split(s: Seq<char>, lo: int, mid: int, j: int)
    requires
        0 <= lo <= mid <= j <= s.len(),
    ensures
        back_ws(s, mid, j) > mid ==> back_ws(s, lo, j) == back_ws(s, mid, j),
        back_ws(s, mid, j) == mid ==> back_ws(s, lo, j) == back_ws(s, lo, mid),
    decreases j - mid,
{
    if j > mid && spec_is_whitespace(s[j - 1]) {
        lemma_back_ws_split(s, lo, mid, j - 1);
    }
}

/// Skipping whitespace from a position where only whitespace is left
/// reaches the end.
proof fn lemma_skip_all_ws(t: Seq<char>, i: int)
    requires
        0 <= i <= t.len(),
        forall|j: int| i <= j < t.len() ==> spec_is_whitespace(#[trigger] t[j]),
    ensures
        skip_ws(t, i) == t.len(),
    decreases t.len() - i,
{
    if i < t.len() {
        lemma_skip_all_ws(t, i + 1);
    }
}

/// Stripping trailing whitespace over a stretch of whitespace strips all of it.
proof fn lemma_back_all_ws(t: Seq<char>, lo: int, j: int)
    requires
        0 <= lo <= j <= t.len(),
        forall|k: int| lo <= k < j ==> spec_is_whitespace(#[trigger] t[k]),
    ensures
        back_ws(t, lo, j) == lo,
    decreases j - lo,
{
    if lo < j {
        lemma_back_all_ws(t, lo, j - 1);
    }
}

/// Leading whitespace of `s` is found at the same place after a whitespace
/// suffix is appended, unless `s` holds nothing but whitespace.
proof fn lemma_skip_ws_extend(s: Seq<char>, w: Seq<char>, i: int)
    requires
        0 <= i <= s.len(),
        forall|j: int| 0 <= j < w.len() ==> spec_is_whitespace(#[trigger] w[j]),
    ensures
        skip_ws(s + w, i) == (if skip_ws(s, i) < s.len() {
            skip_ws(s, i)
        } else {
            (s.len() + w.len()) as int
        }),
    decreases s.len() - i,
{
    let t = s + w;
    if i < s.len() {
        assert(t[i] == s[i]);
        if spec_is_whitespace(s[i]) {
            lemma_skip_ws_extend(s, w, i + 1);
        }
    } else {
        assert forall|j: int| i <= j < t.len() implies spec_is_whitespace(#[trigger] t[j]) by {
            assert(t[j] == w[j - s.len()]);
        }
        lemma_skip_all_ws(t, i);
    }
}

/// Stripping trailing whitespace inside `s` does not see what follows `s`.
proof fn lemma_back_ws_prefix(s: Seq<char>, w: Seq<char>, lo: int, j: int)
    requires
        0 <= lo <= j <= s.len(),
    ensures
        back_ws(s + w, lo, j) == back_ws(s, lo, j),
    decreases j - lo,
{
    if lo < j {
        assert((s + w)[j - 1] == s[j - 1]);
        lemma_back_ws_prefix(s, w, lo, j - 1);
    }
}

/// Appending whitespace to a text does not change it once trimmed.
pub proof fn lemma_trim_ignores_trailing_whitespace(s: Seq<char>, w: Seq<char>)
    requires
        forall|j: int| 0 <= j < w.len() ==> spec_is_whitespace(#[trigger] w[j]),
    ensures
        trimmed(s + w) == trimmed(s),
{
    let t = s + w;
    lemma_skip_ws_extend(s, w, 0);
    lemma_skip_ws(s, 0);
    let a = skip_ws(s, 0);
    if a < s.len() {
        assert forall|k: int| s.len() <= k < t.len() implies spec_is_whitespace(#[trigger] t[k]) by {
            assert(t[k] == w[k - s.len()]);
        }
        lemma_back_all_ws(t, s.len() as int, t.len() as int);
        lemma_back_ws_split(t, a, s.len() as int, t.len() as int);
        lemma_back_ws_prefix(s, w, a, s.len() as int);
        lemma_back_ws_bounds(s, a, s.len() as int);
        let b = back_ws(s, a, s.len() as int);
        assert(t.subrange(a, b) =~= s.subrange(a, b));
    } else {
        assert(back_ws(t, t.len() as int, t.len() as int) == t.len());
        assert(back_ws(s, s.len() as int, s.len() as int) == s.len());
        assert(t.subrange(t.len() as int, t.len() as int) =~= s.subrange(s.len() as int, s.len() as int));
    }
}

/// The digit characters are the ASCII digits, with their values.
proof fn lemma_digit_char(d: nat)
    requires
        d < 10,
    ensures
        spec_is_digit(digit_char(d)),
        digit_char(d) as u32 - 48 == d,
        digit_char(d) != '+',
        !spec_is_whitespace(digit_char(d)),
{
    assert(('0' as u32) == 48);
    assert(('1' as u32) == 49);
    assert(('2' as u32) == 50);
    assert(('3' as u32) == 51);
    assert(('4' as u32) == 52);
    assert(('5' as u32) == 53);
    assert(('6' as u32) == 54);
    assert(('7' as u32) == 55);
    assert(('8' as u32) == 56);
    assert(('9' as u32) == 57);
}

/// The decimal text of a number is a non-empty string of ASCII digits, free of
/// whitespace, whose value is the number.
pub proof fn lemma_decimal_digits(n: nat)
    ensures
        decimal(n).len() > 0,
        all_digits(decimal(n)),
        digits_value(decimal(n)) == n,
        forall|i: int| 0 <= i < decimal(n).len() ==> !spec_is_whitespace(#[trigger] decimal(n)[i]),
        decimal(n)[0] != '+',
    decreases n,
{
    if n < 10 {
        lemma_digit_char(n);
        assert(decimal(n).drop_last() =~= Seq::<char>::empty());
        assert(decimal(n).last() == digit_char(n));
        assert(digits_value(Seq::<char>::empty()) == 0);
        assert(digits_value(decimal(n)) == (digit_char(n) as u32 - 48) as nat);
    } else {
        lemma_decimal_digits(n / 10);
        lemma_digit_char(n % 10);
        let d = decimal(n);
        assert(d.drop_last() =~= decimal(n / 10));
        assert(d.last() == digit_char(n % 10));
        assert(digits_value(d) == digits_value(decimal(n / 10)) * 10 + (n % 10));
        assert((n / 10) * 10 + n % 10 == n);
        assert forall|i: int| 0 <= i < d.len() implies spec_is_digit(#[trigger] d[i]) by {
            if i < d.len() - 1 {
                assert(d[i] == decimal(n / 10)[i]);
            }
        }
        assert forall|i: int| 0 <= i < d.len() implies !spec_is_whitespace(#[trigger] d[i]) by {
            if i < d.len() - 1 {
                assert(d[i] == decimal(n / 10)[i]);
            }
        }
        assert(d[0] == decimal(n / 10)[0]);
    }
}

/// Parsing the decimal text of any `usize` gives that number back.
pub proof fn lemma_parse_decimal_round_trip(n: usize)
    ensures
        parse_usize_spec(decimal(n as nat)) == Some(n),
{
    lemma_decimal_digits(n as nat);
    assert(unsigned_part(decimal(n as nat)) == decimal(n as nat));
}

/// A single character parses exactly when it is an ASCII digit `0` to `9`,
/// to its digit value.
pub proof fn lemma_parse_single_char(c: char)
    ensures
        parse_usize_spec(seq![c]) == (if 48 <= c as u32 <= 57 {
            Some((c as u32 - 48) as usize)
        } else {
            None
        }),
{
    let s = seq![c];
    if c == '+' {
        assert(s.drop_first() =~= Seq::<char>::empty());
        assert(('+' as u32) == 43);
    } else {
        assert(unsigned_part(s) == s);
        assert(s.drop_last() =~= Seq::<char>::empty());
        assert(s.last() == c);
        assert(digits_value(Seq::<char>::empty()) == 0);
        if 48 <= c as u32 <= 57 {
            assert(all_digits(s));
            assert(digits_value(s) == (c as u32 - 48) as nat);
        } else {
            assert(!spec_is_digit(s[0]));
        }
    }
}

/// Trimming cuts a text into leading whitespace, the trimmed text, and
/// trailing whitespace: the trimmed text is a contiguous piece of the
/// original that neither starts nor ends with whitespace, and everything cut
/// away on either side is whitespace.
pub proof fn lemma_trimmed_shape(s: Seq<char>)
    ensures
        exists|a: int, b: int|
            {
                &&& 0 <= a <= b <= s.len()
                &&& trimmed(s) == s.subrange(a, b)
                &&& forall|k: int| 0 <= k < a ==> spec_is_whitespace(#[trigger] s[k])
                &&& forall|k: int| b <= k < s.len() ==> spec_is_whitespace(#[trigger] s[k])
                &&& a < b ==> !spec_is_whitespace(s[a]) && !spec_is_whitespace(s[b - 1])
            },
{
    lemma_skip_ws(s, 0);
    let a = skip_ws(s, 0);
    lemma_back_ws_bounds(s, a, s.len() as int);
    let b = back_ws(s, a, s.len() as int);
    if a == b && a < s.len() {
        // the whole rest is whitespace, which contradicts s[a] not being whitespace
        assert(spec_is_whitespace(s[a]));
    }
    assert(trimmed(s) == s.subrange(a, b));
}

/// What `find_char` reports: the first position at or after `from` holding `c`,
/// or the end when there is none.
pub proof fn lemma_find_char_first(s: Seq<char>, c: char, from: int)
    requires
        0 <= from <= s.len(),
    ensures
        from <= find_char(s, c, from) <= s.len(),
        find_char(s, c, from) < s.len() ==> s[find_char(s, c, from)] == c,
        forall|k: int| from <= k < find_char(s, c, from) ==> #[trigger] s[k] != c,
    decreases s.len() - from,
{
    if from < s.len() && s[from] != c {
        lemma_find_char_first(s, c, from + 1);
    }
}

/// `split3` cuts a text at its first two spaces, as `splitn(3, ' ')` does:
/// joining the parts back with single spaces gives the text again, and no
/// part but the last holds a space.
pub proof fn lemma_split3_rejoins(s: Seq<char>)
    ensures
        1 <= split3(s).len() <= 3,
        split3(s).len() == 1 ==> split3(s)[0] == s && forall|k: int| 0 <= k < s.len() ==> #[trigger] s[k] != ' ',
        split3(s).len() >= 2 ==> forall|k: int| 0 <= k < split3(s)[0].len() ==> #[trigger] split3(s)[0][k] != ' ',
        split3(s).len() == 2 ==> split3(s)[0] + " "@ + split3(s)[1] == s && forall|k: int|
            0 <= k < split3(s)[1].len() ==> #[trigger] split3(s)[1][k] != ' ',
        split3(s).len() == 3 ==> split3(s)[0] + " "@ + split3(s)[1] + " "@ + split3(s)[2] == s && forall|k: int|
            0 <= k < split3(s)[1].len() ==> #[trigger] split3(s)[1][k] != ' ',
{
    reveal_strlit(" ");
    lemma_find_char_first(s, ' ', 0);
    let i1 = find_char(s, ' ', 0);
    let p = split3(s);
    if i1 >= s.len() {
        assert(p[0] == s);
    } else {
        lemma_find_char_first(s, ' ', i1 + 1);
        let i2 = find_char(s, ' ', i1 + 1);
        assert forall|k: int| 0 <= k < p[0].len() implies #[trigger] p[0][k] != ' ' by {
            assert(p[0][k] == s[k]);
        }
        assert forall|k: int| 0 <= k < p[1].len() implies #[trigger] p[1][k] != ' ' by {
            assert(p[1][k] == s[i1 + 1 + k]);
        }
        if i2 >= s.len() {
            assert(p[0] + " "@ + p[1] =~= s);
        } else {
            assert(p[0] + " "@ + p[1] + " "@ + p[2] =~= s);
        }
    }
}

/// Every word `words_from` completes is non-empty and free of whitespace.
proof fn lemma_words_from_clean(s: Seq<char>, i: int, cur: Seq<char>, acc: Seq<Seq<char>>)
    requires
        0 <= i,
        forall|k: int| 0 <= k < cur.len() ==> !spec_is_whitespace(#[trigger] cur[k]),
        forall|w: int|
            0 <= w < acc.len() ==> (#[trigger] acc[w]).len() > 0 && forall|k: int|
                0 <= k < acc[w].len() ==> !spec_is_whitespace(#[trigger] acc[w][k]),
    ensures
        forall|w: int|
            0 <= w < words_from(s, i, cur, acc).len() ==> (#[trigger] words_from(s, i, cur, acc)[w]).len() > 0
                && forall|k: int|
                0 <= k < words_from(s, i, cur, acc)[w].len() ==> !spec_is_whitespace(
                    #[trigger] words_from(s, i, cur, acc)[w][k],
                ),
    decreases s.len() - i,
{
    if i >= s.len() {
        if cur.len() > 0 {
            let r = acc.push(cur);
            assert forall|w: int| 0 <= w < r.len() implies (#[trigger] r[w]).len() > 0 && forall|k: int|
                0 <= k < r[w].len() ==> !spec_is_whitespace(#[trigger] r[w][k]) by {
                if w < acc.len() {
                    assert(r[w] == acc[w]);
                }
            }
            assert(words_from(s, i, cur, acc) == r);
        } else {
            assert(words_from(s, i, cur, acc) == acc);
        }
    } else if spec_is_whitespace(s[i]) {
        let next = if cur.len() > 0 { acc.push(cur) } else { acc };
        assert forall|w: int| 0 <= w < next.len() implies (#[trigger] next[w]).len() > 0 && forall|k: int|
            0 <= k < next[w].len() ==> !spec_is_whitespace(#[trigger] next[w][k]) by {
            if w < acc.len() {
                assert(next[w] == acc[w]);
            }
        }
        lemma_words_from_clean(s, i + 1, Seq::empty(), next);
        assert(words_from(s, i, cur, acc) == words_from(s, i + 1, Seq::empty(), next));
    } else {
        let c2 = cur.push(s[i]);
        assert forall|k: int| 0 <= k < c2.len() implies !spec_is_whitespace(#[trigger] c2[k]) by {
            if k < cur.len() {
                assert(c2[k] == cur[k]);
            }
        }
        lemma_words_from_clean(s, i + 1, c2, acc);
        assert(words_from(s, i, cur, acc) == words_from(s, i + 1, c2, acc));
    }
}

/// The words of a text, as `split_whitespace` gives them, are non-empty and
/// hold no whitespace.
pub proof fn lemma_words_clean(s: Seq<char>)
    ensures
        forall|w: int|
            0 <= w < words(s).len() ==> (#[trigger] words(s)[w]).len() > 0 && forall|k: int|
                0 <= k < words(s)[w].len() ==> !spec_is_whitespace(#[trigger] words(s)[w][k]),
{
    lemma_words_from_clean(s, 0, Seq::empty(), Seq::empty());
}

/// Trimming is idempotent: a trimmed text has no surrounding whitespace left.
pub proof fn lemma_trim_idempotent(s: Seq<char>)
    ensures
        trimmed(trimmed(s)) == trimmed(s),
{
    let a = skip_ws(s, 0);
    lemma_skip_ws(s, 0);
    let b = back_ws(s, a, s.len() as int);
    lemma_back_ws_bounds(s, a, s.len() as int);
    let t = s.subrange(a, b);
    if t.len() > 0 {
        assert(t[0] == s[a]);
        assert(skip_ws(t, 0) == 0);
        assert(t[t.len() - 1] == s[b - 1]);
        assert(back_ws(t, 0, t.len() as int) == t.len());
        assert(t.subrange(0, t.len() as int) =~= t);
    } else {
        assert(t.subrange(0, 0) =~= t);
    }
}

/// The characters of `s`, in order.
pub fn chars_of(s: &str) -> (res: Vec<char>)
    ensures
        res@ == s@,
{
    let n = s.unicode_len();
    let mut v: Vec<char> = Vec::new();
    let mut i: usize = 0;
    while i < n
        invariant
            n == s@.len(),
            i <= n,
            v@ == s@.subrange(0, i as int),
        decreases n - i,
    {
        let c = s.get_char(i);
        v.push(c);
        i = i + 1;
        proof {
            assert(v@ =~= s@.subrange(0, i as int));
        }
    }
    proof {
        assert(v@ =~= s@);
    }
    v
}

/// Whether `cs[lo..hi]` spells `lit`.
pub fn range_is(cs: &Vec<char>, lo: usize, hi: usize, lit: &str) -> (res: bool)
    requires
        lo <= hi <= cs@.len(),
    ensures
        res == (cs@.subrange(lo as int, hi as int) == lit@),
{
    let n = lit.unicode_len();
    if hi - lo != n {
        proof {
            assert(cs@.subrange(lo as int, hi as int).len() != lit@.len());
        }
        return false;
    }
    let mut i: usize = 0;
    while i < n
        invariant
            n == lit@.len(),
            hi - lo == n,
            lo <= hi <= cs@.len(),
            i <= n,
            forall|j: int| 0 <= j < i ==> cs@[lo + j] == lit@[j],
        decreases n - i,
    {
        if cs[lo + i] != lit.get_char(i) {
            proof {
                assert(cs@.subrange(lo as int, hi as int)[i as int] != lit@[i as int]);
            }
            return false;
        }
        i = i + 1;
    }
    proof {
        assert(cs@.subrange(lo as int, hi as int) =~= lit@);
    }
    true
}

/// Skip whitespace in `cs` from `i`.
pub fn skip_whitespace(cs: &Vec<char>, i: usize) -> (res: usize)
    requires
        i <= cs@.len(),
    ensures
        res == skip_ws(cs@, i as int),
        i <= res <= cs@.len(),
{
    let mut k = i;
    while k < cs.len() && is_whitespace(cs[k])
        invariant
            i <= k <= cs@.len(),
            skip_ws(cs@, i as int) == skip_ws(cs@, k as int),
        decreases cs@.len() - k,
    {
        k = k + 1;
    }
    k
}

/// Drop trailing whitespace from `cs[lo..j]`.
pub fn back_whitespace(cs: &Vec<char>, lo: usize, j: usize) -> (res: usize)
    requires
        lo <= j <= cs@.len(),
    ensures
        res == back_ws(cs@, lo as int, j as int),
        lo <= res <= j,
{
    let mut k = j;
    while lo < k && is_whitespace(cs[k - 1])
        invariant
            lo <= k <= j,
            j <= cs@.len(),
            back_ws(cs@, lo as int, j as int) == back_ws(cs@, lo as int, k as int),
        decreases k - lo,
    {
        k = k - 1;
    }
    k
}

/// Index of the first `c` in `cs` at or after `from`, or `cs.len()`.
pub fn find_in(cs: &Vec<char>, c: char, from: usize) -> (res: usize)
    requires
        from <= cs@.len(),
    ensures
        res == find_char(cs@, c, from as int),
        from <= res <= cs@.len(),
{
    let mut k = from;
    while k < cs.len() && cs[k] != c
        invariant
            from <= k <= cs@.len(),
            find_char(cs@, c, from as int) == find_char(cs@, c, k as int),
        decreases cs@.len() - k,
    {
        k = k + 1;
    }
    k
}

/// Each digit of a string of digits can only add to its value.
pub proof fn lemma_digits_value_prefix(s: Seq<char>, k: int)
    requires
        0 <= k <= s.len(),
    ensures
        digits_value(s.take(k)) <= digits_value(s),
    decreases s.len() - k,
{
    if k < s.len() {
        lemma_digits_value_prefix(s, k + 1);
        assert(s.take(k + 1).drop_last() =~= s.take(k));
    } else {
        assert(s.take(k) =~= s);
    }
}

/// Parse `cs[lo..hi]` as `usize::from_str` does.
pub fn parse_usize(cs: &Vec<char>, lo: usize, hi: usize) -> (res: Option<usize>)
    requires
        lo <= hi <= cs@.len(),
    ensures
        res == parse_usize_spec(cs@.subrange(lo as int, hi as int)),
{
    let ghost s = cs@.subrange(lo as int, hi as int);
    let start = if lo < hi && cs[lo] == '+' { lo + 1 } else { lo };
    let ghost d = cs@.subrange(start as int, hi as int);
    proof {
        if lo < hi && cs@[lo as int] == '+' {
            assert(d =~= s.drop_first());
        } else {
            assert(d =~= s);
        }
        assert(s.len() > 0 ==> s[0] == cs@[lo as int]);
        assert(unsigned_part(s) =~= d);
    }
    if start == hi {
        return None;
    }
    let mut val: usize = 0;
    let mut k = start;
    assert(d.take(0) =~= Seq::<char>::empty());
    while k < hi
        invariant
            lo <= start <= k <= hi <= cs@.len(),
            d == cs@.subrange(start as int, hi as int),
            s == cs@.subrange(lo as int, hi as int),
            d == unsigned_part(s),
            d.len() > 0,
            forall|j: int| 0 <= j < k - start ==> spec_is_digit(#[trigger] d[j]),
            val == digits_value(d.take(k - start)),
        decreases hi - k,
    {
        let c = cs[k];
        let u = c as u32;
        proof {
            assert(d[k - start] == c);
        }
        if u < 48 || u > 57 {
            proof {
                assert(!spec_is_digit(d[k - start]));
                assert(!all_digits(d));
            }
            return None;
        }
        let digit = (u - 48) as usize;
        proof {
            assert(d.take(k - start + 1).drop_last() =~= d.take(k - start));
            assert(d.take(k - start + 1).last() == c);
            assert(digits_value(d.take(k - start + 1)) == val * 10 + digit);
        }
        match val.checked_mul(10) {
            None => {
                proof {
                    lemma_digits_value_prefix(d, k - start + 1);
                }
                return None;
            },
            Some(t) => {
                match t.checked_add(digit) {
                    None => {
                        proof {
                            lemma_digits_value_prefix(d, k - start + 1);
                        }
                        return None;
                    },
                    Some(v2) => {
                        val = v2;
                    },
                }
            },
        }
        k = k + 1;
    }
    proof {
        assert(d.take(hi - start) =~= d);
    }
    Some(val)
}

} // verus!

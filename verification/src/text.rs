//! Character-level text operations shared by the wire model: white space,
//! trimming, splitting into words and into lines, and decimal numerals.
//!
//! Every operation is specified over `Seq<char>`, the view of a string.

use vstd::prelude::*;
use vstd::string::StringExecFns;
use vstd::string::StringSliceAdditionalSpecFns;
use vstd::utf8::valid_utf8;

verus! {

/// The code points that carry the Unicode `White_Space` property.
pub open spec fn is_white_space(c: char) -> bool {
    let u: u32 = c as u32;
    ||| 0x09 <= u <= 0x0D
    ||| u == 0x20
    ||| u == 0x85
    ||| u == 0xA0
    ||| u == 0x1680
    ||| 0x2000 <= u <= 0x200A
    ||| u == 0x2028
    ||| u == 0x2029
    ||| u == 0x202F
    ||| u == 0x205F
    ||| u == 0x3000
}

/// `s` without its leading white space.
pub open spec fn trim_start(s: Seq<char>) -> Seq<char>
    decreases s.len(),
{
    if s.len() > 0 && is_white_space(s[0]) {
        trim_start(s.skip(1))
    } else {
        s
    }
}

/// `s` without its trailing white space.
pub open spec fn trim_end(s: Seq<char>) -> Seq<char>
    decreases s.len(),
{
    if s.len() > 0 && is_white_space(s.last()) {
        trim_end(s.drop_last())
    } else {
        s
    }
}

/// `s` without its leading and trailing white space.
pub open spec fn trim(s: Seq<char>) -> Seq<char> {
    trim_end(trim_start(s))
}

/// Every character of `s` is white space.
pub open spec fn all_white_space(s: Seq<char>) -> bool {
    forall|i: int| 0 <= i < s.len() ==> is_white_space(#[trigger] s[i])
}

/// No character of `s` is white space.
pub open spec fn no_white_space(s: Seq<char>) -> bool {
    forall|i: int| 0 <= i < s.len() ==> !is_white_space(#[trigger] s[i])
}

/// The length of the longest prefix of `s` that holds no white space.
pub open spec fn word_len(s: Seq<char>) -> nat
    decreases s.len(),
{
    if s.len() == 0 || is_white_space(s[0]) {
        0
    } else {
        1 + word_len(s.skip(1))
    }
}

/// The words of `s`: its maximal runs of characters that are not white
/// space, in order.
pub open spec fn words(s: Seq<char>) -> Seq<Seq<char>>
    decreases s.len(),
{
    if s.len() == 0 {
        Seq::empty()
    } else if is_white_space(s[0]) {
        words(s.skip(1))
    } else {
        proof {
            lemma_word_len_bounds(s);
        }
        seq![s.take(word_len(s) as int)] + words(s.skip(word_len(s) as int))
    }
}

/// The two characters at `i` are a carriage return and a line feed.
pub open spec fn crlf_at(s: Seq<char>, i: int) -> bool {
    0 <= i && i + 1 < s.len() && s[i] == '\r' && s[i + 1] == '\n'
}

/// The length of the longest prefix of `s` before which no line break
/// starts.
pub open spec fn line_len(s: Seq<char>) -> nat
    decreases s.len(),
{
    if s.len() == 0 || crlf_at(s, 0) {
        0
    } else {
        1 + line_len(s.skip(1))
    }
}

/// The pieces of `s` between its line breaks, taken from left to right.
/// A text without a line break is one line; a text that ends in a line
/// break has an empty last line.
pub open spec fn lines(s: Seq<char>) -> Seq<Seq<char>>
    decreases s.len(),
{
    if line_len(s) >= s.len() {
        seq![s]
    } else {
        proof {
            lemma_line_len_bounds(s);
        }
        seq![s.take(line_len(s) as int)] + lines(s.skip((line_len(s) + 2) as int))
    }
}

/// The position of the first `c` in `s`, or the length of `s` where it
/// holds none.
pub open spec fn position_of(s: Seq<char>, c: char) -> nat
    decreases s.len(),
{
    if s.len() == 0 || s[0] == c {
        0
    } else {
        1 + position_of(s.skip(1), c)
    }
}

/// The decimal digit for `d`, which is below ten.
pub open spec fn digit_char(d: nat) -> char {
    if d == 0 {
        '0'
    } else if d == 1 {
        '1'
    } else if d == 2 {
        '2'
    } else if d == 3 {
        '3'
    } else if d == 4 {
        '4'
    } else if d == 5 {
        '5'
    } else if d == 6 {
        '6'
    } else if d == 7 {
        '7'
    } else if d == 8 {
        '8'
    } else {
        '9'
    }
}

/// The decimal numeral of `n`, without leading zeros.
pub open spec fn decimal(n: nat) -> Seq<char>
    decreases n,
{
    if n < 10 {
        seq![digit_char(n)]
    } else {
        decimal(n / 10).push(digit_char(n % 10))
    }
}

/// The views of the strings of `v`, in order.
pub open spec fn texts(v: Seq<String>) -> Seq<Seq<char>> {
    Seq::new(v.len(), |i: int| v[i]@)
}

/// The first word of a text ends within the text, holds no white space,
/// and is followed by a white-space character or by the end of the text.
pub proof fn lemma_word_len_bounds(s: Seq<char>)
    ensures
        word_len(s) <= s.len(),
        s.len() > 0 && !is_white_space(s[0]) ==> word_len(s) >= 1,
        no_white_space(s.take(word_len(s) as int)),
        word_len(s) < s.len() ==> is_white_space(s[word_len(s) as int]),
    decreases s.len(),
{
    if s.len() == 0 || is_white_space(s[0]) {
    } else {
        let t: Seq<char> = s.skip(1);
        lemma_word_len_bounds(t);
        let n: int = word_len(s) as int;
        assert forall|i: int| 0 <= i < n implies !is_white_space(#[trigger] s.take(n)[i]) by {
            if i > 0 {
                assert(t.take(n - 1)[i - 1] == s[i]);
            }
        }
    }
}

/// A prefix without white space that ends at a white-space character, or at
/// the end of the text, is the first word.
pub proof fn lemma_word_len_is(s: Seq<char>, k: int)
    requires
        0 <= k <= s.len(),
        no_white_space(s.take(k)),
        k < s.len() ==> is_white_space(s[k]),
    ensures
        word_len(s) == k,
    decreases s.len(),
{
    if k == 0 {
    } else {
        assert(s.take(k)[0] == s[0]);
        let t: Seq<char> = s.skip(1);
        assert forall|i: int| 0 <= i < k - 1 implies !is_white_space(#[trigger] t.take(k - 1)[i]) by {
            assert(s.take(k)[i + 1] == t[i]);
        }
        lemma_word_len_is(t, k - 1);
    }
}

/// The first line of a text ends within the text, no line break starts
/// inside it, and it is followed by a line break or by the end of the
/// text.
pub proof fn lemma_line_len_bounds(s: Seq<char>)
    ensures
        line_len(s) <= s.len(),
        forall|i: int| 0 <= i < line_len(s) ==> !crlf_at(s, i),
        line_len(s) < s.len() ==> crlf_at(s, line_len(s) as int),
    decreases s.len(),
{
    if s.len() == 0 || crlf_at(s, 0) {
    } else {
        let t: Seq<char> = s.skip(1);
        lemma_line_len_bounds(t);
        assert forall|i: int| 0 <= i < line_len(s) implies !crlf_at(s, i) by {
            if i > 0 {
                assert(!crlf_at(t, i - 1));
            }
        }
    }
}

/// The first position at which a line break starts, or the end of the text,
/// is the length of the first line.
pub proof fn lemma_line_len_is(s: Seq<char>, k: int)
    requires
        0 <= k <= s.len(),
        forall|i: int| 0 <= i < k ==> !crlf_at(s, i),
        k < s.len() ==> crlf_at(s, k),
    ensures
        line_len(s) == k,
    decreases s.len(),
{
    if k == 0 {
    } else {
        assert(!crlf_at(s, 0));
        let t: Seq<char> = s.skip(1);
        assert forall|i: int| 0 <= i < k - 1 implies !crlf_at(t, i) by {
            assert(!crlf_at(s, i + 1));
        }
        lemma_line_len_is(t, k - 1);
    }
}

/// The position of a character lies within the text or at its end, the
/// character does not occur before it, and it occurs there unless the
/// position is the end of the text.
pub proof fn lemma_position_of_bounds(s: Seq<char>, c: char)
    ensures
        position_of(s, c) <= s.len(),
        forall|i: int| 0 <= i < position_of(s, c) ==> s[i] != c,
        position_of(s, c) < s.len() ==> s[position_of(s, c) as int] == c,
    decreases s.len(),
{
    if s.len() == 0 || s[0] == c {
    } else {
        let t: Seq<char> = s.skip(1);
        lemma_position_of_bounds(t, c);
        assert forall|i: int| 0 <= i < position_of(s, c) implies s[i] != c by {
            if i > 0 {
                assert(t[i - 1] == s[i]);
            }
        }
    }
}

/// The first position that holds `c`, or the end of the text, is the
/// position of `c`.
pub proof fn lemma_position_of_is(s: Seq<char>, c: char, k: int)
    requires
        0 <= k <= s.len(),
        forall|i: int| 0 <= i < k ==> s[i] != c,
        k < s.len() ==> s[k] == c,
    ensures
        position_of(s, c) == k,
    decreases s.len(),
{
    if k == 0 {
    } else {
        let t: Seq<char> = s.skip(1);
        assert forall|i: int| 0 <= i < k - 1 implies t[i] != c by {
            assert(s[i + 1] == t[i]);
        }
        lemma_position_of_is(t, c, k - 1);
    }
}

/// Leading white space of length `k`, followed by the end of the text or by
/// another character, is what `trim_start` removes.
pub proof fn lemma_trim_start_is(s: Seq<char>, k: int)
    requires
        0 <= k <= s.len(),
        all_white_space(s.take(k)),
        k < s.len() ==> !is_white_space(s[k]),
    ensures
        trim_start(s) == s.skip(k),
    decreases s.len(),
{
    if k == 0 {
        assert(s.skip(0) =~= s);
    } else {
        assert(s.take(k)[0] == s[0]);
        let t: Seq<char> = s.skip(1);
        assert forall|i: int| 0 <= i < k - 1 implies is_white_space(#[trigger] t.take(k - 1)[i]) by {
            assert(s.take(k)[i + 1] == t[i]);
        }
        lemma_trim_start_is(t, k - 1);
        assert(t.skip(k - 1) =~= s.skip(k));
    }
}

/// Trailing white space from `k` on, preceded by the start of the text or
/// by another character, is what `trim_end` removes.
pub proof fn lemma_trim_end_is(s: Seq<char>, k: int)
    requires
        0 <= k <= s.len(),
        all_white_space(s.skip(k)),
        k > 0 ==> !is_white_space(s[k - 1]),
    ensures
        trim_end(s) == s.take(k),
    decreases s.len(),
{
    if k == s.len() {
        assert(s.take(k) =~= s);
    } else {
        assert(s.skip(k)[s.len() - 1 - k] == s.last());
        let t: Seq<char> = s.drop_last();
        assert forall|i: int| 0 <= i < t.len() - k implies is_white_space(#[trigger] t.skip(k)[i]) by {
            assert(s.skip(k)[i] == t[k + i]);
        }
        lemma_trim_end_is(t, k);
        assert(t.take(k) =~= s.take(k));
    }
}

/// White space in front of a text does not change what `trim_start` leaves.
pub proof fn lemma_trim_start_padding(left: Seq<char>, s: Seq<char>)
    requires
        all_white_space(left),
    ensures
        trim_start(left + s) == trim_start(s),
    decreases left.len(),
{
    if left.len() == 0 {
        assert(left + s =~= s);
    } else {
        assert((left + s)[0] == left[0]);
        assert((left + s).skip(1) =~= left.skip(1) + s);
        assert forall|i: int| 0 <= i < left.skip(1).len() implies is_white_space(
            #[trigger] left.skip(1)[i],
        ) by {
            assert(left.skip(1)[i] == left[i + 1]);
        }
        lemma_trim_start_padding(left.skip(1), s);
    }
}

/// White space behind a text does not change what `trim_end` leaves.
pub proof fn lemma_trim_end_padding(s: Seq<char>, right: Seq<char>)
    requires
        all_white_space(right),
    ensures
        trim_end(s + right) == trim_end(s),
    decreases right.len(),
{
    if right.len() == 0 {
        assert(s + right =~= s);
    } else {
        assert((s + right).last() == right.last());
        assert((s + right).drop_last() =~= s + right.drop_last());
        assert forall|i: int| 0 <= i < right.drop_last().len() implies is_white_space(
            #[trigger] right.drop_last()[i],
        ) by {
            assert(right.drop_last()[i] == right[i]);
        }
        lemma_trim_end_padding(s, right.drop_last());
    }
}

/// White space behind a text does not change what `trim` leaves.
proof fn lemma_trim_right_padding(s: Seq<char>, right: Seq<char>)
    requires
        all_white_space(right),
    ensures
        trim(s + right) == trim(s),
    decreases s.len(),
{
    if s.len() == 0 {
        assert(s + right =~= right + s);
        lemma_trim_start_padding(right, s);
    } else if is_white_space(s[0]) {
        assert((s + right)[0] == s[0]);
        assert((s + right).skip(1) =~= s.skip(1) + right);
        lemma_trim_right_padding(s.skip(1), right);
    } else {
        assert((s + right)[0] == s[0]);
        lemma_trim_end_padding(s, right);
    }
}

/// Trimming looks at nothing but the text between the surrounding white
/// space: padding a text with white space on either side does not change
/// what `trim` leaves of it.
pub proof fn lemma_trim_padding(left: Seq<char>, s: Seq<char>, right: Seq<char>)
    requires
        all_white_space(left),
        all_white_space(right),
    ensures
        trim(left + s + right) == trim(s),
{
    assert(left + s + right =~= left + (s + right));
    lemma_trim_start_padding(left, s + right);
    lemma_trim_right_padding(s, right);
}

/// Trimming a trimmed text changes nothing.
pub proof fn lemma_trim_idempotent(s: Seq<char>)
    ensures
        trim(trim(s)) == trim(s),
{
    lemma_trim_shape(s);
    let t: Seq<char> = trim(s);
    if t.len() > 0 {
        assert(trim_start(t) == t);
        assert(trim_end(t) == t);
    }
}

/// What `trim` leaves neither starts nor ends with white space.
pub proof fn lemma_trim_shape(s: Seq<char>)
    ensures
        trim(s).len() > 0 ==> !is_white_space(trim(s)[0]) && !is_white_space(trim(s).last()),
{
    lemma_trim_start_shape(s);
    lemma_trim_end_shape(trim_start(s));
    let t: Seq<char> = trim_start(s);
    if trim_end(t).len() > 0 {
        lemma_trim_end_prefix(t);
        assert(trim_end(t)[0] == t[0]);
    }
}

/// What `trim_start` leaves does not start with white space.
proof fn lemma_trim_start_shape(s: Seq<char>)
    ensures
        trim_start(s).len() > 0 ==> !is_white_space(trim_start(s)[0]),
    decreases s.len(),
{
    if s.len() > 0 && is_white_space(s[0]) {
        lemma_trim_start_shape(s.skip(1));
    }
}

/// What `trim_end` leaves does not end with white space.
proof fn lemma_trim_end_shape(s: Seq<char>)
    ensures
        trim_end(s).len() > 0 ==> !is_white_space(trim_end(s).last()),
    decreases s.len(),
{
    if s.len() > 0 && is_white_space(s.last()) {
        lemma_trim_end_shape(s.drop_last());
    }
}

/// What `trim_end` leaves is a prefix of the text.
proof fn lemma_trim_end_prefix(s: Seq<char>)
    ensures
        trim_end(s).len() <= s.len(),
        trim_end(s) == s.take(trim_end(s).len() as int),
    decreases s.len(),
{
    if s.len() > 0 && is_white_space(s.last()) {
        lemma_trim_end_prefix(s.drop_last());
        assert(s.drop_last().take(trim_end(s).len() as int) =~= s.take(trim_end(s).len() as int));
    } else {
        assert(s.take(s.len() as int) =~= s);
    }
}

/// A word followed by a white-space character is the first word of the
/// whole text, and the words of what follows come after it.
pub proof fn lemma_words_after_word(w: Seq<char>, c: char, rest: Seq<char>)
    requires
        w.len() > 0,
        no_white_space(w),
        is_white_space(c),
    ensures
        words(w + seq![c] + rest) == seq![w] + words(rest),
{
    let s: Seq<char> = w + seq![c] + rest;
    let k: int = w.len() as int;
    assert(s[0] == w[0]);
    assert(s.take(k) =~= w);
    assert(s[k] == c);
    lemma_word_len_is(s, k);
    let t: Seq<char> = s.skip(k);
    assert(t[0] == c);
    assert(t.skip(1) =~= rest);
    assert(words(t) == words(t.skip(1)));
    assert(words(s) == seq![s.take(k)] + words(t));
}

/// A text that is one word has itself as its only word.
pub proof fn lemma_words_of_word(w: Seq<char>)
    requires
        w.len() > 0,
        no_white_space(w),
    ensures
        words(w) == seq![w],
{
    let k: int = w.len() as int;
    assert(w.take(k) =~= w);
    lemma_word_len_is(w, k);
    assert(w.skip(k) =~= Seq::<char>::empty());
    assert(words(w.skip(k)) =~= Seq::<Seq<char>>::empty());
    assert(seq![w] + Seq::<Seq<char>>::empty() =~= seq![w]);
}

/// Every word of a text holds at least one character and no white space.
pub proof fn lemma_words_are_words(s: Seq<char>)
    ensures
        forall|i: int|
            0 <= i < words(s).len() ==> (#[trigger] words(s)[i]).len() > 0 && no_white_space(
                words(s)[i],
            ),
    decreases s.len(),
{
    if s.len() == 0 {
        assert(words(s).len() == 0);
    } else if is_white_space(s[0]) {
        lemma_words_are_words(s.skip(1));
        assert(words(s) == words(s.skip(1)));
    } else {
        lemma_word_len_bounds(s);
        let n: int = word_len(s) as int;
        lemma_words_are_words(s.skip(n));
        assert(words(s) == seq![s.take(n)] + words(s.skip(n)));
        assert forall|i: int| 0 <= i < words(s).len() implies (#[trigger] words(s)[i]).len() > 0
            && no_white_space(words(s)[i]) by {
            if i > 0 {
                assert(words(s)[i] == words(s.skip(n))[i - 1]);
            }
        }
    }
}

/// A text in which no line break starts is one line.
pub proof fn lemma_lines_of_line(s: Seq<char>)
    requires
        forall|i: int| 0 <= i < s.len() ==> !crlf_at(s, i),
    ensures
        lines(s) == seq![s],
{
    lemma_line_len_is(s, s.len() as int);
}

/// A line in which no line break starts, and which does not end in a
/// carriage return, is the first line of that line followed by a line
/// break and more text.
pub proof fn lemma_lines_after_line(l: Seq<char>, rest: Seq<char>)
    requires
        forall|i: int| 0 <= i < l.len() ==> l[i] != '\r',
    ensures
        lines(l + seq!['\r', '\n'] + rest) == seq![l] + lines(rest),
{
    let s: Seq<char> = l + seq!['\r', '\n'] + rest;
    let k: int = l.len() as int;
    assert forall|i: int| 0 <= i < k implies !crlf_at(s, i) by {
        assert(s[i] == l[i]);
    }
    assert(s[k] == '\r' && s[k + 1] == '\n');
    lemma_line_len_is(s, k);
    assert(s.take(k) =~= l);
    assert(s.skip(k + 2) =~= rest);
}

/// Tells whether `c` is a white-space character.
pub fn is_whitespace(c: char) -> (r: bool)
    ensures
        r == is_white_space(c),
{
    let u: u32 = c as u32;
    (0x09 <= u && u <= 0x0D) || u == 0x20 || u == 0x85 || u == 0xA0 || u == 0x1680 || (0x2000 <= u
        && u <= 0x200A) || u == 0x2028 || u == 0x2029 || u == 0x202F || u == 0x205F || u == 0x3000
}

/// The characters of `s`, in order.
pub fn chars_of(s: &str) -> (v: Vec<char>)
    ensures
        v@ == s@,
{
    let mut v: Vec<char> = Vec::new();
    for c in it: s.chars()
        invariant
            it.seq() == s@,
            v@ == s@.take(it.index() as int),
    {
        v.push(c);
    }
    v
}

/// `s` without its leading and trailing white space.
pub fn trim_text(s: &str) -> (r: &str)
    ensures
        r@ == trim(s@),
{
    let v: Vec<char> = chars_of(s);
    let n: usize = v.len();
    let mut a: usize = 0;
    while a < n && is_whitespace(v[a])
        invariant
            a <= n,
            n == v@.len(),
            all_white_space(v@.take(a as int)),
        decreases n - a,
    {
        a += 1;
        assert forall|i: int| 0 <= i < a implies is_white_space(#[trigger] v@.take(a as int)[i]) by {
            if i < a - 1 {
                assert(v@.take(a - 1)[i] == v@[i]);
            }
        }
    }
    let mut b: usize = n;
    while b > a && is_whitespace(v[b - 1])
        invariant
            a <= b <= n,
            n == v@.len(),
            all_white_space(v@.skip(b as int)),
        decreases b,
    {
        b -= 1;
        assert forall|i: int| 0 <= i < n - b implies is_white_space(#[trigger] v@.skip(b as int)[i]) by {
            if i > 0 {
                assert(v@.skip(b + 1)[i - 1] == v@[b + i]);
            }
        }
    }
    proof {
        lemma_trim_start_is(v@, a as int);
        let t: Seq<char> = v@.skip(a as int);
        assert(t.skip(b - a) =~= v@.skip(b as int));
        if b > a {
            assert(t[b - a - 1] == v@[b - 1]);
        }
        lemma_trim_end_is(t, b - a);
        assert(t.take(b - a) =~= v@.subrange(a as int, b as int));
    }
    s.substring_char(a, b)
}

/// The words of `s`: its maximal runs of characters that are not white
/// space, in order.
pub fn split_whitespace(s: &str) -> (r: Vec<String>)
    ensures
        texts(r@) == words(s@),
{
    let v: Vec<char> = chars_of(s);
    let n: usize = v.len();
    let mut out: Vec<String> = Vec::new();
    let mut i: usize = 0;
    assert(s@.skip(0) =~= s@);
    assert(texts(out@) + words(s@) =~= words(s@));
    while i < n
        invariant
            i <= n,
            n == v@.len(),
            v@ == s@,
            words(s@) == texts(out@) + words(s@.skip(i as int)),
        decreases n - i,
    {
        if is_whitespace(v[i]) {
            assert(s@.skip(i as int).skip(1) =~= s@.skip(i + 1));
            i += 1;
        } else {
            let mut j: usize = i + 1;
            while j < n && !is_whitespace(v[j])
                invariant
                    i < j <= n,
                    n == v@.len(),
                    forall|k: int| i <= k < j ==> !is_white_space(v@[k]),
                decreases n - j,
            {
                j += 1;
            }
            let word: String = s.substring_char(i, j).to_owned();
            proof {
                let t: Seq<char> = s@.skip(i as int);
                assert forall|k: int| 0 <= k < j - i implies !is_white_space(
                    #[trigger] t.take(j - i)[k],
                ) by {
                    assert(t.take(j - i)[k] == v@[i + k]);
                }
                lemma_word_len_is(t, j - i);
                assert(t.take(j - i) =~= s@.subrange(i as int, j as int));
                assert(t.skip(j - i) =~= s@.skip(j as int));
                assert(texts(out@.push(word)) =~= texts(out@) + seq![word@]);
            }
            out.push(word);
            i = j;
        }
    }
    proof {
        assert(texts(out@) + Seq::<Seq<char>>::empty() =~= texts(out@));
    }
    out
}

/// The pieces of `s` between its line breaks (a carriage return followed
/// by a line feed), taken from left to right.
pub fn split_lines(s: &str) -> (r: Vec<String>)
    ensures
        texts(r@) == lines(s@),
{
    let v: Vec<char> = chars_of(s);
    let n: usize = v.len();
    let mut out: Vec<String> = Vec::new();
    let mut start: usize = 0;
    let mut i: usize = 0;
    assert(s@.skip(0) =~= s@);
    assert(texts(out@) + lines(s@) =~= lines(s@));
    while i < n
        invariant
            start <= i <= n,
            n == v@.len(),
            v@ == s@,
            lines(s@) == texts(out@) + lines(s@.skip(start as int)),
            forall|k: int| start <= k < i ==> !crlf_at(s@, k),
        decreases n - i,
    {
        if v[i] == '\r' && i + 1 < n && v[i + 1] == '\n' {
            let line: String = s.substring_char(start, i).to_owned();
            proof {
                let t: Seq<char> = s@.skip(start as int);
                assert forall|k: int| 0 <= k < i - start implies !crlf_at(t, k) by {
                    assert(!crlf_at(s@, start + k));
                }
                assert(crlf_at(t, i - start));
                lemma_line_len_is(t, i - start);
                assert(t.take(i - start) =~= s@.subrange(start as int, i as int));
                assert(t.skip(i - start + 2) =~= s@.skip(i + 2));
                assert(texts(out@.push(line)) =~= texts(out@) + seq![line@]);
            }
            out.push(line);
            start = i + 2;
            i = start;
        } else {
            i += 1;
        }
    }
    let line: String = s.substring_char(start, n).to_owned();
    proof {
        let t: Seq<char> = s@.skip(start as int);
        assert forall|k: int| 0 <= k < n - start implies !crlf_at(t, k) by {
            assert(!crlf_at(s@, start + k));
        }
        lemma_line_len_is(t, n - start);
        assert(t =~= s@.subrange(start as int, n as int));
        assert(texts(out@.push(line)) =~= texts(out@) + seq![line@]);
    }
    out.push(line);
    out
}

/// Tells whether `a` and `b` hold the same characters.
pub fn text_eq(a: &str, b: &str) -> (r: bool)
    ensures
        r == (a@ == b@),
{
    let x: Vec<char> = chars_of(a);
    let y: Vec<char> = chars_of(b);
    if x.len() != y.len() {
        return false;
    }
    let n: usize = x.len();
    let mut i: usize = 0;
    while i < n
        invariant
            i <= n,
            n == x@.len(),
            n == y@.len(),
            x@ == a@,
            y@ == b@,
            forall|k: int| 0 <= k < i ==> x@[k] == y@[k],
        decreases n - i,
    {
        if x[i] != y[i] {
            return false;
        }
        i += 1;
    }
    assert(x@ =~= y@);
    true
}

/// Tells whether `s` begins with the characters of `prefix`.
pub fn starts_with(s: &str, prefix: &str) -> (r: bool)
    ensures
        r == prefix@.is_prefix_of(s@),
{
    let x: Vec<char> = chars_of(s);
    let y: Vec<char> = chars_of(prefix);
    if x.len() < y.len() {
        return false;
    }
    let n: usize = y.len();
    let mut i: usize = 0;
    while i < n
        invariant
            i <= n,
            n == y@.len(),
            n <= x@.len(),
            x@ == s@,
            y@ == prefix@,
            forall|k: int| 0 <= k < i ==> x@[k] == y@[k],
        decreases n - i,
    {
        if x[i] != y[i] {
            assert(s@.subrange(0, n as int)[i as int] != prefix@[i as int]);
            return false;
        }
        i += 1;
    }
    assert(s@.subrange(0, n as int) =~= prefix@);
    true
}

/// The position of the first `c` in `s`, counted in characters, or the
/// length of `s` where it holds none.
pub fn find_char(s: &str, c: char) -> (r: usize)
    ensures
        r == position_of(s@, c),
        r <= s@.len(),
{
    let v: Vec<char> = chars_of(s);
    let n: usize = v.len();
    let mut i: usize = 0;
    while i < n && v[i] != c
        invariant
            i <= n,
            n == v@.len(),
            forall|k: int| 0 <= k < i ==> v@[k] != c,
        decreases n - i,
    {
        i += 1;
    }
    proof {
        lemma_position_of_is(s@, c, i as int);
    }
    i
}

/// The numeral of one decimal digit.
fn digit_text(d: usize) -> (r: &'static str)
    requires
        d < 10,
    ensures
        r@ == seq![digit_char(d as nat)],
{
    proof {
        reveal_strlit("0");
        reveal_strlit("1");
        reveal_strlit("2");
        reveal_strlit("3");
        reveal_strlit("4");
        reveal_strlit("5");
        reveal_strlit("6");
        reveal_strlit("7");
        reveal_strlit("8");
        reveal_strlit("9");
    }
    let r: &'static str = if d == 0 {
        "0"
    } else if d == 1 {
        "1"
    } else if d == 2 {
        "2"
    } else if d == 3 {
        "3"
    } else if d == 4 {
        "4"
    } else if d == 5 {
        "5"
    } else if d == 6 {
        "6"
    } else if d == 7 {
        "7"
    } else if d == 8 {
        "8"
    } else {
        "9"
    };
    assert(r@ =~= seq![digit_char(d as nat)]);
    r
}

/// The decimal numeral of `n`, without leading zeros.
pub fn decimal_text(n: usize) -> (r: String)
    ensures
        r@ == decimal(n as nat),
    decreases n,
{
    if n < 10 {
        String::from_str(digit_text(n))
    } else {
        let mut r: String = decimal_text(n / 10);
        r.append(digit_text(n % 10));
        assert(r@ =~= decimal((n / 10) as nat).push(digit_char((n % 10) as nat)));
        r
    }
}

/// What `str::to_uppercase` makes of a text: its upper-case form under the
/// Unicode case mappings.
pub uninterp spec fn uppercase_of(s: Seq<char>) -> Seq<char>;

/// What `str::to_lowercase` makes of a text: its lower-case form under the
/// Unicode case mappings.
pub uninterp spec fn lowercase_of(s: Seq<char>) -> Seq<char>;

/// Calls `str::to_uppercase`. The result depends on the characters of `s`
/// alone; nothing more is claimed of it.
#[verifier::external_body]
pub(crate) fn to_uppercase(s: &str) -> (r: String)
    ensures
        r@ == uppercase_of(s@),
{
    s.to_uppercase()
}

/// Calls `str::to_lowercase`. The result depends on the characters of `s`
/// alone; nothing more is claimed of it.
#[verifier::external_body]
pub(crate) fn to_lowercase(s: &str) -> (r: String)
    ensures
        r@ == lowercase_of(s@),
{
    s.to_lowercase()
}

/// Calls `std::str::from_utf8`, which accepts exactly the well-formed UTF-8
/// byte sequences and then returns the text that those bytes encode.
#[verifier::external_body]
pub(crate) fn from_utf8(bytes: &[u8]) -> (r: Option<&str>)
    ensures
        r is Some <==> valid_utf8(bytes@),
        r matches Some(s) ==> s.spec_bytes() == bytes@,
{
    std::str::from_utf8(bytes).ok()
}

} // verus!

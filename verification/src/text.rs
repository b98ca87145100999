//! Character-level text handling: whitespace, trimming, splitting into
//! fields and lines, and substring search, each stated over `Seq<char>`.
use vstd::prelude::*;

verus! {

broadcast use vstd::string::group_string_axioms;

// ---------------------------------------------------------------------------
// Specifications
// ---------------------------------------------------------------------------

/// The Unicode `White_Space` property (the characters that `char::is_whitespace`
/// accepts).
pub open spec fn is_ws(c: char) -> bool {
    ||| ('\u{9}' <= c && c <= '\u{d}')
    ||| c == ' '
    ||| c == '\u{85}'
    ||| c == '\u{a0}'
    ||| c == '\u{1680}'
    ||| ('\u{2000}' <= c && c <= '\u{200a}')
    ||| c == '\u{2028}'
    ||| c == '\u{2029}'
    ||| c == '\u{202f}'
    ||| c == '\u{205f}'
    ||| c == '\u{3000}'
}

/// `s` without its leading whitespace.
pub open spec fn trim_start(s: Seq<char>) -> Seq<char>
    decreases s.len(),
{
    if s.len() > 0 && is_ws(s[0]) {
        trim_start(s.drop_first())
    } else {
        s
    }
}

/// `s` without its trailing whitespace.
pub open spec fn trim_end(s: Seq<char>) -> Seq<char>
    decreases s.len(),
{
    if s.len() > 0 && is_ws(s.last()) {
        trim_end(s.drop_last())
    } else {
        s
    }
}

/// `s` without leading and trailing whitespace.
pub open spec fn trim(s: Seq<char>) -> Seq<char> {
    trim_end(trim_start(s))
}

/// The whitespace-separated words of `s`, where `cur` is the word read so far.
pub open spec fn fields_from(s: Seq<char>, cur: Seq<char>) -> Seq<Seq<char>>
    decreases s.len(),
{
    if s.len() == 0 {
        if cur.len() == 0 {
            seq![]
        } else {
            seq![cur]
        }
    } else if is_ws(s[0]) {
        if cur.len() == 0 {
            fields_from(s.drop_first(), cur)
        } else {
            seq![cur] + fields_from(s.drop_first(), seq![])
        }
    } else {
        fields_from(s.drop_first(), cur.push(s[0]))
    }
}

/// The maximal runs of non-whitespace characters of `s`, in order.
pub open spec fn fields(s: Seq<char>) -> Seq<Seq<char>> {
    fields_from(s, seq![])
}

/// A line without the carriage return that ended it, if any.
pub open spec fn strip_cr(line: Seq<char>) -> Seq<char> {
    if line.len() > 0 && line.last() == '\r' {
        line.drop_last()
    } else {
        line
    }
}

/// The lines of `s`, where `cur` is the part of the current line read so far.
pub open spec fn lines_from(s: Seq<char>, cur: Seq<char>) -> Seq<Seq<char>>
    decreases s.len(),
{
    if s.len() == 0 {
        if cur.len() == 0 {
            seq![]
        } else {
            seq![cur]
        }
    } else if s[0] == '\n' {
        seq![strip_cr(cur)] + lines_from(s.drop_first(), seq![])
    } else {
        lines_from(s.drop_first(), cur.push(s[0]))
    }
}

/// The lines of `s`: pieces ended by `\n` or `\r\n`, the last line ending
/// being optional, without their line endings.
pub open spec fn lines(s: Seq<char>) -> Seq<Seq<char>> {
    lines_from(s, seq![])
}

/// The part of `s` after the last occurrence of `c`, or all of `s` when `c`
/// does not occur in it.
pub open spec fn after_last(s: Seq<char>, c: char) -> Seq<char>
    decreases s.len(),
{
    if s.len() == 0 {
        s
    } else if s.last() == c {
        seq![]
    } else {
        after_last(s.drop_last(), c).push(s.last())
    }
}

/// `needle` occurs in `hay` at position `i`.
pub open spec fn occurs_at(hay: Seq<char>, needle: Seq<char>, i: int) -> bool {
    0 <= i && i + needle.len() <= hay.len() && hay.subrange(i, i + needle.len()) == needle
}

/// `needle` occurs somewhere in `hay` (the empty needle occurs everywhere).
pub open spec fn contains_seq(hay: Seq<char>, needle: Seq<char>) -> bool {
    exists|i: int| occurs_at(hay, needle, i)
}

/// `s` with every NUL character replaced by a space.
pub open spec fn nul_to_space(s: Seq<char>) -> Seq<char> {
    s.map_values(|c: char| if c == '\0' { ' ' } else { c })
}

// ---------------------------------------------------------------------------
// Lemmas
// ---------------------------------------------------------------------------

proof fn lemma_trim_start_skip(s: Seq<char>, i: int)
    requires
        0 <= i <= s.len(),
        forall|k: int| 0 <= k < i ==> is_ws(#[trigger] s[k]),
    ensures
        trim_start(s) == trim_start(s.skip(i)),
    decreases i,
{
    if i == 0 {
        assert(s.skip(0) =~= s);
    } else {
        assert(s.drop_first().skip(i - 1) =~= s.skip(i));
        assert forall|k: int| 0 <= k < i - 1 implies is_ws(#[trigger] s.drop_first()[k]) by {
            assert(s.drop_first()[k] == s[k + 1]);
        }
        lemma_trim_start_skip(s.drop_first(), i - 1);
    }
}

proof fn lemma_trim_end_take(s: Seq<char>, j: int)
    requires
        0 <= j <= s.len(),
        forall|k: int| j <= k < s.len() ==> is_ws(#[trigger] s[k]),
    ensures
        trim_end(s) == trim_end(s.take(j)),
    decreases s.len() - j,
{
    if j == s.len() {
        assert(s.take(j) =~= s);
    } else {
        assert(s.drop_last().take(j) =~= s.take(j));
        assert forall|k: int| j <= k < s.drop_last().len() implies is_ws(
            #[trigger] s.drop_last()[k],
        ) by {
            assert(s.drop_last()[k] == s[k]);
        }
        lemma_trim_end_take(s.drop_last(), j);
    }
}

proof fn lemma_trim_start_shape(s: Seq<char>) -> (k: int)
    ensures
        0 <= k <= s.len(),
        trim_start(s) == s.skip(k),
        forall|i: int| 0 <= i < k ==> is_ws(#[trigger] s[i]),
        k < s.len() ==> !is_ws(s[k]),
    decreases s.len(),
{
    if s.len() > 0 && is_ws(s[0]) {
        let k1 = lemma_trim_start_shape(s.drop_first());
        assert(s.drop_first().skip(k1) =~= s.skip(k1 + 1));
        assert forall|i: int| 0 <= i < k1 + 1 implies is_ws(#[trigger] s[i]) by {
            if i > 0 {
                assert(s[i] == s.drop_first()[i - 1]);
            }
        }
        if k1 + 1 < s.len() {
            assert(s[k1 + 1] == s.drop_first()[k1]);
        }
        k1 + 1
    } else {
        assert(s.skip(0) =~= s);
        0
    }
}

proof fn lemma_trim_end_shape(s: Seq<char>) -> (j: int)
    ensures
        0 <= j <= s.len(),
        trim_end(s) == s.take(j),
        forall|i: int| j <= i < s.len() ==> is_ws(#[trigger] s[i]),
        j > 0 ==> !is_ws(s[j - 1]),
    decreases s.len(),
{
    if s.len() > 0 && is_ws(s.last()) {
        let j1 = lemma_trim_end_shape(s.drop_last());
        assert(s.drop_last().take(j1) =~= s.take(j1));
        assert forall|i: int| j1 <= i < s.len() implies is_ws(#[trigger] s[i]) by {
            if i < s.len() - 1 {
                assert(s[i] == s.drop_last()[i]);
            }
        }
        if j1 > 0 {
            assert(s[j1 - 1] == s.drop_last()[j1 - 1]);
        }
        j1
    } else {
        assert(s.take(s.len() as int) =~= s);
        s.len() as int
    }
}

/// Trimming removes exactly the whitespace at both ends: the result is a
/// middle part of `s`, everything before and after it is whitespace, and
/// (when not empty) it starts and ends with a non-whitespace character.
pub proof fn lemma_trim_removes_only_outer_whitespace(s: Seq<char>)
    ensures
        exists|i: int, j: int|
            0 <= i <= j <= s.len() && trim(s) == s.subrange(i, j) && (forall|k: int|
                0 <= k < i ==> is_ws(#[trigger] s[k])) && (forall|k: int|
                j <= k < s.len() ==> is_ws(#[trigger] s[k])),
        trim(s).len() > 0 ==> !is_ws(trim(s)[0]) && !is_ws(trim(s).last()),
{
    let i = lemma_trim_start_shape(s);
    let t = s.skip(i);
    let j1 = lemma_trim_end_shape(t);
    assert(t.take(j1) =~= s.subrange(i, i + j1));
    assert forall|k: int| i + j1 <= k < s.len() implies is_ws(#[trigger] s[k]) by {
        assert(s[k] == t[k - i]);
    }
    assert(trim(s) == s.subrange(i, i + j1));
    if j1 > 0 {
        assert(trim(s)[0] == s[i]);
        assert(trim(s).last() == t[j1 - 1]);
    }
}

proof fn lemma_fields_from_split(a: Seq<char>, w: char, b: Seq<char>, cur: Seq<char>)
    requires
        is_ws(w),
    ensures
        fields_from(a + seq![w] + b, cur) == fields_from(a, cur) + fields(b),
    decreases a.len(),
{
    let s = a + seq![w] + b;
    if a.len() == 0 {
        assert(s =~= seq![w] + b);
        assert(s.drop_first() =~= b);
        assert(s[0] == w);
        if cur.len() == 0 {
            assert(cur =~= Seq::<char>::empty());
            assert(fields_from(s, cur) == fields_from(b, cur));
            assert(fields_from(a, cur) == Seq::<Seq<char>>::empty());
            assert(Seq::<Seq<char>>::empty() + fields(b) =~= fields(b));
        } else {
            assert(fields_from(s, cur) == seq![cur] + fields_from(b, seq![]));
            assert(fields_from(a, cur) == seq![cur]);
        }
    } else {
        let a1 = a.drop_first();
        assert(s.drop_first() =~= a1 + seq![w] + b);
        assert(s[0] == a[0]);
        if is_ws(a[0]) {
            if cur.len() == 0 {
                assert(cur =~= Seq::<char>::empty());
                lemma_fields_from_split(a1, w, b, cur);
                assert(fields_from(s, cur) == fields_from(a1 + seq![w] + b, cur));
                assert(fields_from(a, cur) == fields_from(a1, cur));
            } else {
                lemma_fields_from_split(a1, w, b, seq![]);
                assert(fields_from(s, cur) == seq![cur] + fields_from(a1 + seq![w] + b, seq![]));
                assert(fields_from(a, cur) == seq![cur] + fields_from(a1, seq![]));
                assert(seq![cur] + (fields_from(a1, seq![]) + fields(b)) =~= seq![cur]
                    + fields_from(a1, seq![]) + fields(b));
            }
        } else {
            lemma_fields_from_split(a1, w, b, cur.push(a[0]));
            assert(fields_from(s, cur) == fields_from(a1 + seq![w] + b, cur.push(a[0])));
            assert(fields_from(a, cur) == fields_from(a1, cur.push(a[0])));
        }
    }
}

proof fn lemma_fields_from_word(a: Seq<char>, cur: Seq<char>)
    requires
        cur.len() + a.len() > 0,
        forall|i: int| 0 <= i < a.len() ==> !is_ws(#[trigger] a[i]),
    ensures
        fields_from(a, cur) == seq![cur + a],
    decreases a.len(),
{
    if a.len() == 0 {
        assert(cur + a =~= cur);
    } else {
        assert(!is_ws(a[0]));
        assert forall|i: int| 0 <= i < a.drop_first().len() implies !is_ws(
            #[trigger] a.drop_first()[i],
        ) by {
            assert(a.drop_first()[i] == a[i + 1]);
        }
        lemma_fields_from_word(a.drop_first(), cur.push(a[0]));
        assert(cur.push(a[0]) + a.drop_first() =~= cur + a);
    }
}

/// Whitespace separates fields: the fields of `a`, a whitespace character
/// and `b` are the fields of `a` followed by those of `b`; and a non-empty
/// run without whitespace is one field.
pub proof fn lemma_fields_split_at_whitespace(a: Seq<char>, w: char, b: Seq<char>)
    requires
        is_ws(w),
    ensures
        fields(a + seq![w] + b) == fields(a) + fields(b),
        a.len() > 0 && (forall|i: int| 0 <= i < a.len() ==> !is_ws(#[trigger] a[i])) ==> fields(a)
            == seq![a],
{
    lemma_fields_from_split(a, w, b, seq![]);
    if a.len() > 0 && (forall|i: int| 0 <= i < a.len() ==> !is_ws(#[trigger] a[i])) {
        lemma_fields_from_word(a, seq![]);
        assert(Seq::<char>::empty() + a =~= a);
    }
}

proof fn lemma_lines_from_split(a: Seq<char>, b: Seq<char>, cur: Seq<char>)
    requires
        forall|i: int| 0 <= i < a.len() ==> #[trigger] a[i] != '\n',
    ensures
        lines_from(a + seq!['\n'] + b, cur) == seq![strip_cr(cur + a)] + lines(b),
    decreases a.len(),
{
    let s = a + seq!['\n'] + b;
    if a.len() == 0 {
        assert(s.drop_first() =~= b);
        assert(cur + a =~= cur);
    } else {
        assert(s.drop_first() =~= a.drop_first() + seq!['\n'] + b);
        assert(s[0] == a[0]);
        assert forall|i: int| 0 <= i < a.drop_first().len() implies #[trigger] a.drop_first()[i]
            != '\n' by {
            assert(a.drop_first()[i] == a[i + 1]);
        }
        lemma_lines_from_split(a.drop_first(), b, cur.push(a[0]));
        assert(cur.push(a[0]) + a.drop_first() =~= cur + a);
    }
}

proof fn lemma_lines_from_last(a: Seq<char>, cur: Seq<char>)
    requires
        cur.len() + a.len() > 0,
        forall|i: int| 0 <= i < a.len() ==> #[trigger] a[i] != '\n',
    ensures
        lines_from(a, cur) == seq![cur + a],
    decreases a.len(),
{
    if a.len() == 0 {
        assert(cur + a =~= cur);
    } else {
        assert forall|i: int| 0 <= i < a.drop_first().len() implies #[trigger] a.drop_first()[i]
            != '\n' by {
            assert(a.drop_first()[i] == a[i + 1]);
        }
        lemma_lines_from_last(a.drop_first(), cur.push(a[0]));
        assert(cur.push(a[0]) + a.drop_first() =~= cur + a);
    }
}

/// A newline ends a line: the lines of a line `a` (without newlines), a
/// newline and the rest `b` are `a` without a final carriage return,
/// followed by the lines of `b`; and a non-empty text without newlines is one
/// line, as it is.
pub proof fn lemma_lines_split_at_newline(a: Seq<char>, b: Seq<char>)
    requires
        forall|i: int| 0 <= i < a.len() ==> #[trigger] a[i] != '\n',
    ensures
        lines(a + seq!['\n'] + b) == seq![strip_cr(a)] + lines(b),
        a.len() > 0 ==> lines(a) == seq![a],
{
    lemma_lines_from_split(a, b, seq![]);
    assert(Seq::<char>::empty() + a =~= a);
    if a.len() > 0 {
        lemma_lines_from_last(a, seq![]);
    }
}

/// What follows the last `c`: `s` is some text that is empty or ends with
/// `c`, followed by the result, and the result holds no `c`.
pub proof fn lemma_after_last_is_suffix(s: Seq<char>, c: char)
    ensures
        after_last(s, c).len() <= s.len(),
        s == s.take(s.len() - after_last(s, c).len()) + after_last(s, c),
        s.len() > after_last(s, c).len() ==> s[s.len() - after_last(s, c).len() - 1] == c,
        forall|i: int| 0 <= i < after_last(s, c).len() ==> #[trigger] after_last(s, c)[i] != c,
    decreases s.len(),
{
    if s.len() > 0 && s.last() != c {
        let r = s.drop_last();
        lemma_after_last_is_suffix(r, c);
        let t = after_last(r, c);
        assert(s.take(s.len() - (t.len() + 1)) =~= r.take(r.len() - t.len()));
        assert(r == r.take(r.len() - t.len()) + t);
        assert(s =~= r.push(s.last()));
        assert(r.push(s.last()) =~= r.take(r.len() - t.len()) + t.push(s.last()));
        if r.len() > t.len() {
            assert(s[s.len() - (t.len() + 1) - 1] == r[r.len() - t.len() - 1]);
        }
        assert forall|i: int| 0 <= i < t.push(s.last()).len() implies #[trigger] t.push(
            s.last(),
        )[i] != c by {
            if i < t.len() {
                assert(t.push(s.last())[i] == t[i]);
            }
        }
    } else if s.len() > 0 {
        assert(s.take(s.len() as int) =~= s);
        assert(s + Seq::<char>::empty() =~= s);
    } else {
        assert(s.take(0) + s =~= s);
    }
}

proof fn lemma_deep_view_chars(v: &Vec<Vec<char>>)
    ensures
        v.deep_view().len() == v@.len(),
        forall|i: int| 0 <= i < v@.len() ==> #[trigger] v@[i]@ == v.deep_view()[i],
{
    assert forall|i: int| 0 <= i < v@.len() implies #[trigger] v@[i]@ == v.deep_view()[i] by {
        assert(v@[i].deep_view() =~= v@[i]@);
    }
}

/// Trimming twice trims no more than trimming once.
pub proof fn lemma_trim_idempotent(s: Seq<char>)
    ensures
        trim(trim(s)) == trim(s),
{
    let t = trim_start(s);
    lemma_trim_start_has_no_leading_ws(s);
    lemma_trim_end_keeps_start(t);
    lemma_trim_end_has_no_trailing_ws(t);
}

proof fn lemma_trim_start_has_no_leading_ws(s: Seq<char>)
    ensures
        trim_start(s).len() > 0 ==> !is_ws(trim_start(s)[0]),
    decreases s.len(),
{
    if s.len() > 0 && is_ws(s[0]) {
        lemma_trim_start_has_no_leading_ws(s.drop_first());
    }
}

proof fn lemma_trim_end_has_no_trailing_ws(s: Seq<char>)
    ensures
        trim_end(s).len() > 0 ==> !is_ws(trim_end(s).last()),
    decreases s.len(),
{
    if s.len() > 0 && is_ws(s.last()) {
        lemma_trim_end_has_no_trailing_ws(s.drop_last());
    }
}

proof fn lemma_trim_end_keeps_start(s: Seq<char>)
    ensures
        trim_end(s).len() <= s.len(),
        forall|k: int| 0 <= k < trim_end(s).len() ==> #[trigger] trim_end(s)[k] == s[k],
    decreases s.len(),
{
    if s.len() > 0 && is_ws(s.last()) {
        lemma_trim_end_keeps_start(s.drop_last());
    }
}

} // verus!

verus! {

// ---------------------------------------------------------------------------
// Executable functions
// ---------------------------------------------------------------------------

/// Appends one character to a string (`String::push`).
#[verifier::external_body]
pub(crate) fn push_char(s: &mut String, c: char)
    ensures
        final(s)@ == old(s)@.push(c),
{
    s.push(c);
}

/// Removes and returns the last character of a string (`String::pop`).
#[verifier::external_body]
pub(crate) fn pop_char(s: &mut String) -> (r: Option<char>)
    ensures
        old(s)@.len() == 0 ==> r is None && final(s)@ == old(s)@,
        old(s)@.len() > 0 ==> r == Some(old(s)@.last()) && final(s)@ == old(s)@.drop_last(),
{
    s.pop()
}

/// The characters of a string slice, in order.
pub fn chars_of(s: &str) -> (v: Vec<char>)
    ensures
        v@ == s@,
{
    let mut v: Vec<char> = Vec::new();
    for c in it: s.chars()
        invariant
            it.seq() == s@,
            v@ == it.seq().take(it.index()),
    {
        v.push(c);
    }
    v
}

/// A string holding the given characters.
pub fn string_from_chars(v: &[char]) -> (s: String)
    ensures
        s@ == v@,
{
    let mut s = String::new();
    let n = v.len();
    for i in 0..n
        invariant
            n == v@.len(),
            s@ == v@.take(i as int),
    {
        push_char(&mut s, v[i]);
        assert(v@.take(i + 1) =~= v@.take(i as int).push(v@[i as int]));
    }
    assert(v@.take(n as int) =~= v@);
    s
}

/// Appends the characters of `t` to `s`.
pub fn push_str(s: &mut String, t: &str)
    ensures
        final(s)@ == old(s)@ + t@,
{
    let v = chars_of(t);
    let n = v.len();
    let ghost start = s@;
    for i in 0..n
        invariant
            n == v@.len(),
            v@ == t@,
            s@ == start + v@.take(i as int),
    {
        push_char(s, v[i]);
        assert(v@.take(i + 1) =~= v@.take(i as int).push(v@[i as int]));
        assert(start + v@.take(i + 1) =~= (start + v@.take(i as int)).push(v@[i as int]));
    }
    assert(v@.take(n as int) =~= v@);
}

/// A copy of a string slice.
pub fn to_string(s: &str) -> (r: String)
    ensures
        r@ == s@,
{
    let v = chars_of(s);
    string_from_chars(v.as_slice())
}

/// The characters of `v` from position `from` up to `to`.
pub fn sub_chars(v: &[char], from: usize, to: usize) -> (r: Vec<char>)
    requires
        from <= to <= v@.len(),
    ensures
        r@ == v@.subrange(from as int, to as int),
{
    let mut r: Vec<char> = Vec::new();
    let mut k: usize = from;
    while k < to
        invariant
            from <= k <= to <= v@.len(),
            r@ == v@.subrange(from as int, k as int),
        decreases to - k,
    {
        r.push(v[k]);
        assert(v@.subrange(from as int, k + 1) =~= v@.subrange(from as int, k as int).push(
            v@[k as int],
        ));
        k = k + 1;
    }
    r
}

/// `char::is_whitespace`.
pub fn is_whitespace(c: char) -> (b: bool)
    ensures
        b == is_ws(c),
{
    ('\u{9}' <= c && c <= '\u{d}') || c == ' ' || c == '\u{85}' || c == '\u{a0}' || c
        == '\u{1680}' || ('\u{2000}' <= c && c <= '\u{200a}') || c == '\u{2028}' || c == '\u{2029}'
        || c == '\u{202f}' || c == '\u{205f}' || c == '\u{3000}'
}

/// The characters of `v` without leading and trailing whitespace.
pub fn trim_chars(v: &[char]) -> (r: Vec<char>)
    ensures
        r@ == trim(v@),
{
    let n = v.len();
    let mut i: usize = 0;
    while i < n && is_whitespace(v[i])
        invariant
            n == v@.len(),
            i <= n,
            forall|k: int| 0 <= k < i ==> is_ws(#[trigger] v@[k]),
        decreases n - i,
    {
        i = i + 1;
    }
    proof {
        lemma_trim_start_skip(v@, i as int);
    }
    let mut j: usize = n;
    while j > i && is_whitespace(v[j - 1])
        invariant
            n == v@.len(),
            i <= j <= n,
            forall|k: int| j <= k < n ==> is_ws(#[trigger] v@[k]),
        decreases j,
    {
        j = j - 1;
    }
    let ghost rest = v@.skip(i as int);
    proof {
        assert(trim_start(rest) == rest);
        assert forall|k: int| j - i <= k < rest.len() implies is_ws(#[trigger] rest[k]) by {
            assert(rest[k] == v@[k + i]);
        }
        lemma_trim_end_take(rest, j - i);
        assert(rest.take(j - i) =~= v@.subrange(i as int, j as int));
    }
    let mut r: Vec<char> = Vec::new();
    let mut k: usize = i;
    while k < j
        invariant
            n == v@.len(),
            i <= k <= j <= n,
            r@ == v@.subrange(i as int, k as int),
        decreases j - k,
    {
        r.push(v[k]);
        assert(v@.subrange(i as int, k + 1) =~= v@.subrange(i as int, k as int).push(v@[k as int]));
        k = k + 1;
    }
    r
}

/// `s.trim()`, as an owned string.
pub fn trim_str(s: &str) -> (r: String)
    ensures
        r@ == trim(s@),
{
    let v = chars_of(s);
    let t = trim_chars(v.as_slice());
    string_from_chars(t.as_slice())
}

/// The whitespace-separated words of `v` (`str::split_whitespace`).
pub fn split_fields(v: &[char]) -> (r: Vec<Vec<char>>)
    ensures
        r.deep_view() == fields(v@),
        r@.len() == fields(v@).len(),
        forall|i: int| 0 <= i < r@.len() ==> #[trigger] r@[i]@ == fields(v@)[i],
{
    let n = v.len();
    let mut words: Vec<Vec<char>> = Vec::new();
    let mut cur: Vec<char> = Vec::new();
    assert(v@.skip(0) =~= v@);
    assert(words.deep_view() =~= Seq::<Seq<char>>::empty());
    for i in 0..n
        invariant
            n == v@.len(),
            fields(v@) == words.deep_view() + fields_from(v@.skip(i as int), cur@),
    {
        let ghost rest = v@.skip(i as int);
        assert(rest.drop_first() =~= v@.skip(i + 1));
        assert(rest[0] == v@[i as int]);
        let c = v[i];
        if is_whitespace(c) {
            if cur.len() > 0 {
                let ghost before = words.deep_view();
                let w = cur;
                assert(w.deep_view() =~= w@);
                cur = Vec::new();
                words.push(w);
                assert(words.deep_view() =~= before + seq![w@]);
                assert(before + seq![w@] + fields_from(v@.skip(i + 1), seq![]) =~= before + (
                seq![w@] + fields_from(v@.skip(i + 1), seq![])));
                assert(cur@ =~= seq![]);
            }
        } else {
            cur.push(c);
        }
    }
    assert(v@.skip(n as int) =~= Seq::<char>::empty());
    if cur.len() > 0 {
        let ghost before = words.deep_view();
        let w = cur;
        assert(w.deep_view() =~= w@);
        words.push(w);
        assert(words.deep_view() =~= before + seq![w@]);
    } else {
        assert(words.deep_view() + Seq::<Seq<char>>::empty() =~= words.deep_view());
    }
    proof {
        lemma_deep_view_chars(&words);
    }
    words
}

/// The lines of `v` (`str::lines`).
pub fn split_lines(v: &[char]) -> (r: Vec<Vec<char>>)
    ensures
        r.deep_view() == lines(v@),
        r@.len() == lines(v@).len(),
        forall|i: int| 0 <= i < r@.len() ==> #[trigger] r@[i]@ == lines(v@)[i],
{
    let n = v.len();
    let mut out: Vec<Vec<char>> = Vec::new();
    let mut cur: Vec<char> = Vec::new();
    assert(v@.skip(0) =~= v@);
    assert(out.deep_view() =~= Seq::<Seq<char>>::empty());
    for i in 0..n
        invariant
            n == v@.len(),
            lines(v@) == out.deep_view() + lines_from(v@.skip(i as int), cur@),
    {
        let ghost rest = v@.skip(i as int);
        assert(rest.drop_first() =~= v@.skip(i + 1));
        assert(rest[0] == v@[i as int]);
        let c = v[i];
        if c == '\n' {
            let ghost before = out.deep_view();
            let mut w = cur;
            let m = w.len();
            if m > 0 && w[m - 1] == '\r' {
                w.pop();
            }
            assert(w@ == strip_cr(cur@));
            assert(w.deep_view() =~= w@);
            cur = Vec::new();
            out.push(w);
            assert(out.deep_view() =~= before + seq![w@]);
            assert(before + seq![w@] + lines_from(v@.skip(i + 1), seq![]) =~= before + (seq![w@]
                + lines_from(v@.skip(i + 1), seq![])));
            assert(cur@ =~= seq![]);
        } else {
            cur.push(c);
        }
    }
    assert(v@.skip(n as int) =~= Seq::<char>::empty());
    if cur.len() > 0 {
        let ghost before = out.deep_view();
        let w = cur;
        assert(w.deep_view() =~= w@);
        out.push(w);
        assert(out.deep_view() =~= before + seq![w@]);
    } else {
        assert(out.deep_view() + Seq::<Seq<char>>::empty() =~= out.deep_view());
    }
    proof {
        lemma_deep_view_chars(&out);
    }
    out
}

/// The part of `v` after the last `c` (`str::rsplit(c).next()`).
pub fn after_last_char(v: &[char], c: char) -> (r: Vec<char>)
    ensures
        r@ == after_last(v@, c),
{
    let n = v.len();
    let mut i: usize = n;
    assert(v@.take(n as int) =~= v@);
    assert(v@ + v@.subrange(n as int, n as int) =~= v@);
    while i > 0 && v[i - 1] != c
        invariant
            n == v@.len(),
            i <= n,
            after_last(v@, c) == after_last(v@.take(i as int), c) + v@.subrange(i as int, n as int),
        decreases i,
    {
        let ghost t = v@.take(i as int);
        assert(t.drop_last() =~= v@.take(i - 1));
        assert(after_last(v@.take(i - 1), c).push(v@[i - 1]) + v@.subrange(i as int, n as int)
            =~= after_last(v@.take(i - 1), c) + v@.subrange(i - 1, n as int));
        i = i - 1;
    }
    if i == 0 {
        assert(v@.take(0) =~= Seq::<char>::empty());
    }
    assert(after_last(v@.take(i as int), c) =~= Seq::<char>::empty());
    let mut r: Vec<char> = Vec::new();
    let mut k: usize = i;
    while k < n
        invariant
            n == v@.len(),
            i <= k <= n,
            r@ == v@.subrange(i as int, k as int),
        decreases n - k,
    {
        r.push(v[k]);
        assert(v@.subrange(i as int, k + 1) =~= v@.subrange(i as int, k as int).push(v@[k as int]));
        k = k + 1;
    }
    assert(Seq::<char>::empty() + r@ =~= r@);
    r
}

/// Whether `needle` occurs at position `i` of `hay`.
fn matches_at(hay: &[char], needle: &[char], i: usize) -> (b: bool)
    requires
        i + needle@.len() <= hay@.len(),
    ensures
        b == occurs_at(hay@, needle@, i as int),
{
    let m = needle.len();
    let n = hay.len();
    let mut k: usize = 0;
    while k < m
        invariant
            m == needle@.len(),
            n == hay@.len(),
            i + m <= hay@.len(),
            k <= m,
            forall|t: int| 0 <= t < k ==> hay@[i + t] == needle@[t],
        decreases m - k,
    {
        if hay[i + k] != needle[k] {
            assert(hay@.subrange(i as int, i + m)[k as int] != needle@[k as int]);
            return false;
        }
        k = k + 1;
    }
    assert(hay@.subrange(i as int, i + m) =~= needle@);
    true
}

/// Whether `needle` occurs in `hay` (`str::contains` with a string pattern).
pub fn contains_chars(hay: &[char], needle: &[char]) -> (b: bool)
    ensures
        b == contains_seq(hay@, needle@),
{
    let n = hay.len();
    let m = needle.len();
    if m > n {
        assert forall|i: int| !occurs_at(hay@, needle@, i) by {}
        return false;
    }
    if m == 0 {
        assert(hay@.subrange(0, 0) =~= needle@);
        assert(occurs_at(hay@, needle@, 0));
        return true;
    }
    let mut i: usize = 0;
    while i <= n - m
        invariant
            n == hay@.len(),
            m == needle@.len(),
            0 < m <= n,
            i <= n - m + 1,
            forall|t: int| 0 <= t < i ==> !occurs_at(hay@, needle@, t),
        decreases n - m + 1 - i,
    {
        if matches_at(hay, needle, i) {
            return true;
        }
        i = i + 1;
    }
    assert forall|t: int| !occurs_at(hay@, needle@, t) by {
        if 0 <= t < i {
        }
    }
    false
}

/// `s.replace('\0', " ")`.
pub fn replace_nul_with_space(s: &str) -> (r: Vec<char>)
    ensures
        r@ == nul_to_space(s@),
{
    let v = chars_of(s);
    let n = v.len();
    let mut r: Vec<char> = Vec::new();
    for i in 0..n
        invariant
            n == v@.len(),
            v@ == s@,
            r@ == nul_to_space(v@.take(i as int)),
    {
        let c = v[i];
        if c == '\0' {
            r.push(' ');
        } else {
            r.push(c);
        }
        assert(nul_to_space(v@.take(i + 1)) =~= nul_to_space(v@.take(i as int)).push(
            if c == '\0' { ' ' } else { c },
        ));
    }
    assert(v@.take(n as int) =~= v@);
    r
}

} // verus!

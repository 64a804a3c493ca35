//! Operations on text, described over the sequence of its characters.
use vstd::prelude::*;
use vstd::string::StringSliceAdditionalSpecFns;

verus! {

/// `String::push` appends the given character to the end of the string.
pub assume_specification[ String::push ](s: &mut String, c: char)
    ensures
        final(s)@ == old(s)@.push(c),
;

/// Whether `part` stands in `s` at position `at`.
pub open spec fn occurs_at(s: Seq<char>, part: Seq<char>, at: int) -> bool {
    &&& 0 <= at
    &&& at + part.len() <= s.len()
    &&& s.subrange(at, at + part.len()) == part
}

/// The first position, at or after `from`, at which `part` stands in `s`; -1 where there is none.
pub open spec fn first_at(s: Seq<char>, part: Seq<char>, from: int) -> int
    decreases s.len() - from + 1,
{
    if from + part.len() > s.len() {
        -1
    } else if occurs_at(s, part, from) {
        from
    } else {
        first_at(s, part, from + 1)
    }
}

/// The pieces of `s` between the non-overlapping occurrences of `sep`, from left to right.
pub open spec fn split_text(s: Seq<char>, sep: Seq<char>) -> Seq<Seq<char>>
    decreases s.len(),
{
    let k = first_at(s, sep, 0);
    if sep.len() == 0 || k < 0 || k + sep.len() > s.len() {
        seq![s]
    } else {
        seq![s.take(k)] + split_text(s.skip(k + sep.len()), sep)
    }
}

/// The pieces with `sep` between each two of them.
pub open spec fn join_text(parts: Seq<Seq<char>>, sep: Seq<char>) -> Seq<char>
    decreases parts.len(),
{
    if parts.len() == 0 {
        Seq::empty()
    } else if parts.len() == 1 {
        parts[0]
    } else {
        parts[0] + sep + join_text(parts.drop_first(), sep)
    }
}

/// `s` with each non-overlapping occurrence of `from` replaced by `to`.
pub open spec fn replace_text(s: Seq<char>, from: Seq<char>, to: Seq<char>) -> Seq<char> {
    join_text(split_text(s, from), to)
}

/// Whether `s` begins with `p`.
pub open spec fn has_prefix(s: Seq<char>, p: Seq<char>) -> bool {
    occurs_at(s, p, 0)
}

/// Whether `s` ends with `p`.
pub open spec fn has_suffix(s: Seq<char>, p: Seq<char>) -> bool {
    occurs_at(s, p, s.len() - p.len())
}

/// Whether `part` stands anywhere in `s`.
pub open spec fn contains_text(s: Seq<char>, part: Seq<char>) -> bool {
    exists|at: int| occurs_at(s, part, at)
}

/// The characters with Unicode's `White_Space` property.
pub open spec fn is_space(c: char) -> bool {
    ||| '\u{9}' <= c <= '\u{d}'
    ||| c == ' '
    ||| c == '\u{85}'
    ||| c == '\u{a0}'
    ||| c == '\u{1680}'
    ||| '\u{2000}' <= c <= '\u{200a}'
    ||| c == '\u{2028}'
    ||| c == '\u{2029}'
    ||| c == '\u{202f}'
    ||| c == '\u{205f}'
    ||| c == '\u{3000}'
}

/// `s` without its leading white space.
pub open spec fn trim_start(s: Seq<char>) -> Seq<char>
    decreases s.len(),
{
    if s.len() > 0 && is_space(s[0]) {
        trim_start(s.drop_first())
    } else {
        s
    }
}

/// `s` without its trailing white space.
pub open spec fn trim_end(s: Seq<char>) -> Seq<char>
    decreases s.len(),
{
    if s.len() > 0 && is_space(s.last()) {
        trim_end(s.drop_last())
    } else {
        s
    }
}

/// `s` without white space at either end.
pub open spec fn trim_text(s: Seq<char>) -> Seq<char> {
    trim_end(trim_start(s))
}

/// The runs of characters that are not white space, from left to right.
pub open spec fn words(s: Seq<char>) -> Seq<Seq<char>>
    decreases s.len(),
{
    if s.len() == 0 {
        Seq::empty()
    } else if is_space(s[0]) {
        words(s.drop_first())
    } else {
        let n = word_len(s);
        if n <= 0 || n > s.len() {
            Seq::empty()
        } else {
            seq![s.take(n)] + words(s.skip(n))
        }
    }
}

/// How many characters from the start of `s` on are not white space.
pub open spec fn word_len(s: Seq<char>) -> int
    decreases s.len(),
{
    if s.len() == 0 || is_space(s[0]) {
        0
    } else {
        1 + word_len(s.drop_first())
    }
}

/// The first position of `c` in `s`; -1 where it does not occur.
pub open spec fn char_at_first(s: Seq<char>, c: char) -> int
    decreases s.len(),
{
    if s.len() == 0 {
        -1
    } else if s[0] == c {
        0
    } else {
        let k = char_at_first(s.drop_first(), c);
        if k < 0 {
            -1
        } else {
            k + 1
        }
    }
}

/// The last position of `c` in `s`; -1 where it does not occur.
pub open spec fn char_at_last(s: Seq<char>, c: char) -> int
    decreases s.len(),
{
    if s.len() == 0 {
        -1
    } else if s.last() == c {
        s.len() - 1
    } else {
        char_at_last(s.drop_last(), c)
    }
}

/// Whether `a` stands no later than `b` in the order of text: by the first character in which
/// they differ, and a beginning before what it begins. (UTF-8 keeps the order of code points, so
/// this is also the order of the bytes.)
pub open spec fn text_le(a: Seq<char>, b: Seq<char>) -> bool
    decreases a.len(),
{
    if a.len() == 0 {
        true
    } else if b.len() == 0 {
        false
    } else if a[0] != b[0] {
        a[0] < b[0]
    } else {
        text_le(a.drop_first(), b.drop_first())
    }
}

/// The views of a vector of strings.
pub open spec fn texts(v: Seq<String>) -> Seq<Seq<char>> {
    v.map_values(|s: String| s@)
}

/// Whether two strings hold the same characters.
pub fn same_text(a: &str, b: &str) -> (r: bool)
    ensures
        r == (a@ == b@),
{
    let x = a.as_bytes();
    let y = b.as_bytes();
    proof {
        vstd::utf8::encode_utf8_decode_utf8(a@);
        vstd::utf8::encode_utf8_decode_utf8(b@);
    }
    if x.len() != y.len() {
        return false;
    }
    let mut i: usize = 0;
    while i < x.len()
        invariant
            x@.len() == y@.len(),
            x@ == a.spec_bytes(),
            y@ == b.spec_bytes(),
            i <= x@.len(),
            forall|j: int| 0 <= j < i ==> x@[j] == y@[j],
        decreases x.len() - i,
    {
        if x[i] != y[i] {
            return false;
        }
        i = i + 1;
    }
    assert(x@ =~= y@);
    true
}

/// The characters of a string.
pub fn to_chars(s: &str) -> (r: Vec<char>)
    ensures
        r@ == s@,
{
    let mut v: Vec<char> = Vec::new();
    for c in it: s.chars()
        invariant
            it.seq() == s@,
            v@ == s@.take(it.index()),
    {
        v.push(c);
        assert(v@ =~= s@.take(it.index() + 1));
    }
    assert(s@.take(s@.len() as int) =~= s@);
    v
}

/// The string of a run of characters.
pub fn from_chars(v: &Vec<char>, from: usize, to: usize) -> (r: String)
    requires
        from <= to <= v@.len(),
    ensures
        r@ == v@.subrange(from as int, to as int),
{
    let mut s = String::new();
    let mut i: usize = from;
    while i < to
        invariant
            from <= i <= to <= v@.len(),
            s@ == v@.subrange(from as int, i as int),
        decreases to - i,
    {
        s.push(v[i]);
        i = i + 1;
        assert(s@ =~= v@.subrange(from as int, i as int));
    }
    s
}

/// Whether `part` stands in `s` at position `at`.
fn chars_at(s: &Vec<char>, part: &Vec<char>, at: usize) -> (r: bool)
    requires
        at <= s@.len(),
    ensures
        r == occurs_at(s@, part@, at as int),
{
    if part.len() > s.len() - at {
        return false;
    }
    let mut i: usize = 0;
    while i < part.len()
        invariant
            at + part@.len() <= s.len(),
            i <= part@.len(),
            forall|j: int| 0 <= j < i ==> s@[at + j] == #[trigger] part@[j],
        decreases part.len() - i,
    {
        if s[at + i] != part[i] {
            assert(s@.subrange(at as int, at + part@.len())[i as int] != part@[i as int]);
            return false;
        }
        i = i + 1;
    }
    assert(s@.subrange(at as int, at + part@.len()) =~= part@);
    true
}

/// The first position at or after `from` at which `part` stands in `s`.
fn find_from(s: &Vec<char>, part: &Vec<char>, from: usize) -> (r: Option<usize>)
    requires
        from <= s@.len(),
    ensures
        match r {
            Some(k) => k == first_at(s@, part@, from as int) && from <= k && k + part@.len() <= s@.len(),
            None => first_at(s@, part@, from as int) < 0,
        },
{
    let mut i: usize = from;
    loop
        invariant
            from <= i <= s@.len(),
            first_at(s@, part@, from as int) == first_at(s@, part@, i as int),
        decreases s@.len() - i,
    {
        if part.len() > s.len() - i {
            return None;
        }
        if chars_at(s, part, i) {
            return Some(i);
        }
        if i == s.len() {
            assert(s@.subrange(i as int, i + part@.len()) =~= part@);
            return Some(i);
        }
        i = i + 1;
    }
}

/// Looking for `part` from position `at` on is looking for it in the rest of the text.
proof fn first_at_skip(s: Seq<char>, part: Seq<char>, at: int, from: int)
    requires
        0 <= at <= s.len(),
        0 <= from,
    ensures
        first_at(s, part, at + from) == (if first_at(s.skip(at), part, from) < 0 {
            -1
        } else {
            at + first_at(s.skip(at), part, from)
        }),
        first_at(s, part, at + from) < 0 || at + from <= first_at(s, part, at + from) <= s.len() - part.len(),
    decreases s.len() - at - from + 1,
{
    let t = s.skip(at);
    if from + part.len() <= t.len() {
        assert(t.subrange(from, from + part.len()) =~= s.subrange(at + from, at + from + part.len()));
        if !occurs_at(t, part, from) {
            first_at_skip(s, part, at, from + 1);
        }
    }
}

/// The pieces of a text between the occurrences of a separator.
pub fn split(s: &str, sep: &str) -> (r: Vec<String>)
    requires
        sep@.len() > 0,
    ensures
        texts(r@) == split_text(s@, sep@),
        r@.len() > 0,
{
    let c = to_chars(s);
    let p = to_chars(sep);
    let mut parts: Vec<String> = Vec::new();
    let mut start: usize = 0;
    assert(s@.skip(0) =~= s@);
    assert(texts(parts@) + split_text(s@, sep@) =~= split_text(s@, sep@));
    loop
        invariant_except_break
            texts(parts@) + split_text(s@.skip(start as int), sep@) == split_text(s@, sep@),
        invariant
            c@ == s@,
            p@ == sep@,
            p@.len() > 0,
            start <= c@.len(),
        ensures
            texts(parts@) == split_text(s@, sep@),
            parts@.len() > 0,
        decreases c@.len() - start,
    {
        let ghost before = parts@;
        let ghost rest = s@.skip(start as int);
        proof {
            first_at_skip(s@, sep@, start as int, 0);
        }
        match find_from(&c, &p, start) {
            None => {
                parts.push(from_chars(&c, start, c.len()));
                assert(texts(parts@) =~= texts(before).push(rest));
                assert(texts(parts@) =~= texts(before) + split_text(rest, sep@));
                break;
            },
            Some(k) => {
                parts.push(from_chars(&c, start, k));
                let ghost piece = s@.subrange(start as int, k as int);
                assert(piece =~= rest.take(k - start));
                assert(texts(parts@) =~= texts(before).push(piece));
                assert(k + p@.len() <= c.len());
                let next: usize = k + p.len();
                assert(rest.skip(k - start + sep@.len()) =~= s@.skip(next as int));
                assert(texts(parts@) + split_text(s@.skip(next as int), sep@) =~= texts(before)
                    + split_text(rest, sep@));
                start = next;
            },
        }
    }
    parts
}

/// The pieces of a text joined again by the separator.
pub fn join(parts: &Vec<String>, sep: &str) -> (r: String)
    ensures
        r@ == join_text(texts(parts@), sep@),
{
    let mut r = String::new();
    let mut i: usize = parts.len();
    if i == 0 {
        return r;
    }
    i = i - 1;
    r = parts[i].clone();
    assert(texts(parts@).skip(i as int) =~= seq![texts(parts@)[i as int]]);
    while i > 0
        invariant
            i < parts@.len(),
            r@ == join_text(texts(parts@).skip(i as int), sep@),
        decreases i,
    {
        i = i - 1;
        let mut t = parts[i].clone();
        t.append(sep);
        t.append(r.as_str());
        assert(texts(parts@).skip(i as int).drop_first() =~= texts(parts@).skip(i + 1));
        r = t;
    }
    assert(texts(parts@).skip(0) =~= texts(parts@));
    r
}

/// Joining the pieces of a text with the separator that divided it gives the text again.
pub proof fn join_undoes_split(s: Seq<char>, sep: Seq<char>)
    ensures
        join_text(split_text(s, sep), sep) == s,
        split_text(s, sep).len() > 0,
    decreases s.len(),
{
    let k = first_at(s, sep, 0);
    if sep.len() == 0 || k < 0 || k + sep.len() > s.len() {
    } else {
        first_at_skip(s, sep, 0, 0);
        assert(s.skip(0) =~= s);
        let rest = s.skip(k + sep.len());
        join_undoes_split(rest, sep);
        first_at_occurs(s, sep, 0);
        assert(split_text(s, sep).drop_first() =~= split_text(rest, sep));
        assert(s.take(k) + sep + rest =~= s);
    }
}

/// Where `first_at` finds a text, the text stands there, and nowhere before.
pub proof fn first_at_occurs(s: Seq<char>, part: Seq<char>, from: int)
    requires
        0 <= from,
    ensures
        ({
            let k = first_at(s, part, from);
            if k < 0 {
                forall|j: int| from <= j ==> !occurs_at(s, part, j)
            } else {
                from <= k && occurs_at(s, part, k) && forall|j: int| from <= j < k ==> !occurs_at(s, part, j)
            }
        }),
    decreases s.len() - from + 1,
{
    if from + part.len() <= s.len() && !occurs_at(s, part, from) {
        first_at_occurs(s, part, from + 1);
    }
}

/// The text with each occurrence of `from` replaced.
pub fn replace(s: &str, from: &str, to: &str) -> (r: String)
    requires
        from@.len() > 0,
    ensures
        r@ == replace_text(s@, from@, to@),
{
    let parts = split(s, from);
    join(&parts, to)
}

/// Whether a text begins with another.
pub fn starts_with(s: &str, p: &str) -> (r: bool)
    ensures
        r == has_prefix(s@, p@),
{
    chars_at(&to_chars(s), &to_chars(p), 0)
}

/// Whether a text ends with another.
pub fn ends_with(s: &str, p: &str) -> (r: bool)
    ensures
        r == has_suffix(s@, p@),
{
    let c = to_chars(s);
    let q = to_chars(p);
    if q.len() > c.len() {
        return false;
    }
    chars_at(&c, &q, c.len() - q.len())
}

/// Whether a text stands somewhere in another.
pub fn contains(s: &str, part: &str) -> (r: bool)
    ensures
        r == contains_text(s@, part@),
{
    let c = to_chars(s);
    let p = to_chars(part);
    proof {
        first_at_occurs(s@, part@, 0);
    }
    find_from(&c, &p, 0).is_some()
}

/// Whether a character has the `White_Space` property.
pub fn is_space_char(c: char) -> (r: bool)
    ensures
        r == is_space(c),
{
    (c >= '\u{9}' && c <= '\u{d}') || c == ' ' || c == '\u{85}' || c == '\u{a0}' || c == '\u{1680}' || (c
        >= '\u{2000}' && c <= '\u{200a}') || c == '\u{2028}' || c == '\u{2029}' || c == '\u{202f}' || c
        == '\u{205f}' || c == '\u{3000}'
}

/// The text without white space at either end.
pub fn trim(s: &str) -> (r: String)
    ensures
        r@ == trim_text(s@),
{
    let c = to_chars(s);
    let mut from: usize = 0;
    assert(c@.skip(0) =~= c@);
    while from < c.len() && is_space_char(c[from])
        invariant
            c@ == s@,
            from <= c@.len(),
            trim_start(s@) == trim_start(c@.skip(from as int)),
        decreases c.len() - from,
    {
        assert(c@.skip(from as int).drop_first() =~= c@.skip(from + 1));
        from = from + 1;
    }
    let ghost rest = c@.skip(from as int);
    assert(trim_start(rest) == rest);
    let mut to: usize = c.len();
    assert(c@.subrange(from as int, to as int) =~= rest);
    while to > from && is_space_char(c[to - 1])
        invariant
            from <= to <= c@.len(),
            trim_end(rest) == trim_end(c@.subrange(from as int, to as int)),
        decreases to - from,
    {
        assert(c@.subrange(from as int, to as int).drop_last() =~= c@.subrange(from as int, to - 1));
        to = to - 1;
    }
    from_chars(&c, from, to)
}

/// The runs of characters of a text that are not white space.
pub fn split_whitespace(s: &str) -> (r: Vec<String>)
    ensures
        texts(r@) == words(s@),
{
    let c = to_chars(s);
    let mut out: Vec<String> = Vec::new();
    let mut i: usize = 0;
    assert(c@.skip(0) =~= c@);
    assert(texts(out@) + words(c@) =~= words(c@));
    while i < c.len()
        invariant
            c@ == s@,
            i <= c@.len(),
            texts(out@) + words(c@.skip(i as int)) == words(s@),
        decreases c.len() - i,
    {
        let ghost rest = c@.skip(i as int);
        if is_space_char(c[i]) {
            assert(rest.drop_first() =~= c@.skip(i + 1));
            i = i + 1;
        } else {
            let start: usize = i;
            while i < c.len() && !is_space_char(c[i])
                invariant
                    start <= i <= c@.len(),
                    rest == c@.skip(start as int),
                    word_len(rest) == (i - start) + word_len(c@.skip(i as int)),
                decreases c.len() - i,
            {
                assert(c@.skip(i as int).drop_first() =~= c@.skip(i + 1));
                i = i + 1;
            }
            let ghost n = i - start;
            assert(word_len(rest) == n);
            assert(n > 0);
            let ghost before = out@;
            out.push(from_chars(&c, start, i));
            assert(rest.take(n) =~= c@.subrange(start as int, i as int));
            assert(rest.skip(n) =~= c@.skip(i as int));
            assert(texts(out@) =~= texts(before).push(rest.take(n)));
            assert(texts(out@) + words(c@.skip(i as int)) =~= texts(before) + words(rest));
        }
    }
    assert(texts(out@) + words(c@.skip(i as int)) =~= texts(out@));
    out
}

/// The first position of a character in a text.
pub fn find_char(s: &Vec<char>, c: char) -> (r: Option<usize>)
    ensures
        match r {
            Some(k) => k == char_at_first(s@, c) && k < s@.len() && s@[k as int] == c,
            None => char_at_first(s@, c) == -1,
        },
{
    let mut i: usize = 0;
    assert(s@.skip(0) =~= s@);
    while i < s.len()
        invariant
            i <= s@.len(),
            char_at_first(s@, c) == (if char_at_first(s@.skip(i as int), c) < 0 {
                -1
            } else {
                i + char_at_first(s@.skip(i as int), c)
            }),
        decreases s.len() - i,
    {
        if s[i] == c {
            return Some(i);
        }
        assert(s@.skip(i as int).drop_first() =~= s@.skip(i + 1));
        i = i + 1;
    }
    None
}

/// The last position of a character in a text.
pub fn rfind_char(s: &Vec<char>, c: char) -> (r: Option<usize>)
    ensures
        match r {
            Some(k) => k == char_at_last(s@, c) && k < s@.len() && s@[k as int] == c,
            None => char_at_last(s@, c) == -1,
        },
{
    let mut i: usize = s.len();
    assert(s@.take(i as int) =~= s@);
    while i > 0
        invariant
            i <= s@.len(),
            char_at_last(s@, c) == char_at_last(s@.take(i as int), c),
        decreases i,
    {
        assert(s@.take(i as int).drop_last() =~= s@.take(i - 1));
        i = i - 1;
        if s[i] == c {
            return Some(i);
        }
    }
    None
}

/// Whether one text stands no later than another in the order of text.
pub fn no_later(a: &str, b: &str) -> (r: bool)
    ensures
        r == text_le(a@, b@),
{
    let x = to_chars(a);
    let y = to_chars(b);
    let mut i: usize = 0;
    assert(x@.skip(0) =~= x@);
    assert(y@.skip(0) =~= y@);
    loop
        invariant
            i <= x@.len(),
            i <= y@.len(),
            x@ == a@,
            y@ == b@,
            text_le(a@, b@) == text_le(x@.skip(i as int), y@.skip(i as int)),
        decreases x@.len() - i,
    {
        if i >= x.len() {
            return true;
        }
        if i >= y.len() {
            return false;
        }
        if x[i] != y[i] {
            return x[i] < y[i];
        }
        assert(x@.skip(i as int).drop_first() =~= x@.skip(i + 1));
        assert(y@.skip(i as int).drop_first() =~= y@.skip(i + 1));
        i = i + 1;
    }
}

/// The order of text is total.
pub proof fn text_le_total(a: Seq<char>, b: Seq<char>)
    ensures
        text_le(a, b) || text_le(b, a),
    decreases a.len(),
{
    if a.len() > 0 && b.len() > 0 {
        text_le_total(a.drop_first(), b.drop_first());
    }
}

/// The order of text is transitive.
pub proof fn text_le_transitive(a: Seq<char>, b: Seq<char>, c: Seq<char>)
    requires
        text_le(a, b),
        text_le(b, c),
    ensures
        text_le(a, c),
    decreases a.len(),
{
    if a.len() > 0 && b.len() > 0 && c.len() > 0 && a[0] == b[0] && b[0] == c[0] {
        text_le_transitive(a.drop_first(), b.drop_first(), c.drop_first());
    }
}

/// Two texts that stand no later than each other are the same.
pub proof fn text_le_antisymmetric(a: Seq<char>, b: Seq<char>)
    requires
        text_le(a, b),
        text_le(b, a),
    ensures
        a == b,
    decreases a.len(),
{
    if a.len() > 0 && b.len() > 0 {
        text_le_antisymmetric(a.drop_first(), b.drop_first());
        assert(a =~= seq![a[0]] + a.drop_first());
        assert(b =~= seq![b[0]] + b.drop_first());
    }
    assert(a =~= b);
}

/// One text after another.
pub fn concat2(a: &str, b: &str) -> (r: String)
    ensures
        r@ == a@ + b@,
{
    let mut r = a.to_string();
    r.append(b);
    r
}

/// Three texts after each other.
pub fn concat3(a: &str, b: &str, c: &str) -> (r: String)
    ensures
        r@ == a@ + b@ + c@,
{
    let mut r = a.to_string();
    r.append(b);
    r.append(c);
    r
}

/// `std::str::from_utf8` gives the text that the bytes encode, and an error exactly where they are
/// not UTF-8.
#[verifier::external_body]
pub(crate) fn utf8_text(bytes: &[u8]) -> (r: Option<String>)
    ensures
        match r {
            Some(s) => vstd::utf8::valid_utf8(bytes@) && s@ == vstd::utf8::decode_utf8(bytes@),
            None => !vstd::utf8::valid_utf8(bytes@),
        },
{
    match std::str::from_utf8(bytes) {
        Ok(s) => Some(s.to_owned()),
        Err(_) => None,
    }
}

/// A text between quotation marks, with the characters that could be mistaken written out.
pub uninterp spec fn quoted_text(s: Seq<char>) -> Seq<char>;

/// `std::format` with the `Debug` form of a text.
#[verifier::external_body]
fn write_quoted(s: &str) -> (r: String)
    ensures
        r@ == quoted_text(s@),
{
    format!("{:?}", s)
}

/// A text between quotation marks, with the characters that could be mistaken written out.
pub fn quote(s: &str) -> (r: String)
    ensures
        r@ == quoted_text(s@),
{
    write_quoted(s)
}

/// A text is split at the first place at which the separator stands, and what comes behind it is split in
/// the same way.
pub proof fn split_at_first(a: Seq<char>, sep: Seq<char>, b: Seq<char>)
    requires
        sep.len() > 0,
        forall|j: int| 0 <= j < a.len() ==> !occurs_at(a + sep + b, sep, j),
    ensures
        split_text(a + sep + b, sep) == seq![a] + split_text(b, sep),
{
    let s = a + sep + b;
    assert(s.subrange(a.len() as int, (a.len() + sep.len()) as int) =~= sep);
    assert(occurs_at(s, sep, a.len() as int));
    first_at_occurs(s, sep, 0);
    assert(first_at(s, sep, 0) == a.len());
    assert(s.take(a.len() as int) =~= a);
    assert(s.skip((a.len() + sep.len()) as int) =~= b);
}

/// A text in which the separator does not stand is not split.
pub proof fn split_of_one_piece(s: Seq<char>, sep: Seq<char>)
    requires
        !contains_text(s, sep),
    ensures
        split_text(s, sep) == seq![s],
{
    first_at_occurs(s, sep, 0);
}

/// Joining the pieces of two groups puts the separator between the groups, and nothing else.
pub proof fn join_of_groups(a: Seq<Seq<char>>, b: Seq<Seq<char>>, sep: Seq<char>)
    requires
        a.len() > 0,
        b.len() > 0,
    ensures
        join_text(a + b, sep) == join_text(a, sep) + sep + join_text(b, sep),
    decreases a.len(),
{
    let all = a + b;
    assert(all.drop_first() =~= a.drop_first() + b);
    if a.len() == 1 {
        assert(a.drop_first() + b =~= b);
    } else {
        join_of_groups(a.drop_first(), b, sep);
    }
    assert(join_text(all, sep) =~= join_text(a, sep) + sep + join_text(b, sep));
}

/// One piece alone is joined to itself, and no piece to nothing.
pub proof fn join_of_one(s: Seq<char>, sep: Seq<char>)
    ensures
        join_text(seq![s], sep) == s,
        join_text(Seq::<Seq<char>>::empty(), sep) == Seq::<char>::empty(),
{
}

/// The first occurrence of a text is replaced, then those behind it.
pub proof fn replace_at_first(a: Seq<char>, from: Seq<char>, b: Seq<char>, to: Seq<char>)
    requires
        from.len() > 0,
        forall|j: int| 0 <= j < a.len() ==> !occurs_at(a + from + b, from, j),
    ensures
        replace_text(a + from + b, from, to) == a + to + replace_text(b, from, to),
{
    split_at_first(a, from, b);
    join_undoes_split(b, from);
    let rest = split_text(b, from);
    assert((seq![a] + rest).drop_first() =~= rest);
}

/// A text in which what is replaced does not stand stays as it is.
pub proof fn replace_of_nothing(s: Seq<char>, from: Seq<char>, to: Seq<char>)
    requires
        !contains_text(s, from),
    ensures
        replace_text(s, from, to) == s,
{
    split_of_one_piece(s, from);
}

/// What is cut off at the ends of a text is white space, and what stays neither begins nor ends with it.
pub proof fn trim_cuts_spaces(s: Seq<char>)
    ensures
        ({
            let t = trim_text(s);
            &&& t.len() > 0 ==> !is_space(t[0]) && !is_space(t.last())
            &&& exists|i: int, j: int|
                0 <= i <= j <= s.len() && t == #[trigger] s.subrange(i, j) && (forall|k: int|
                    0 <= k < i || j <= k < s.len() ==> is_space(#[trigger] s[k]))
        }),
{
    trim_start_cuts_spaces(s);
    let i = s.len() - trim_start(s).len();
    let u = trim_start(s);
    trim_end_cuts_spaces(u);
    let t = trim_text(s);
    let j = i + t.len();
    assert(t =~= s.subrange(i, j));
    if t.len() > 0 {
        assert(t[0] == u[0]);
    }
    assert forall|k: int| 0 <= k < i || j <= k < s.len() implies is_space(#[trigger] s[k]) by {
        if k >= i {
            assert(u[k - i] == s[k]);
        }
    }
}

proof fn trim_start_cuts_spaces(s: Seq<char>)
    ensures
        ({
            let t = trim_start(s);
            &&& t.len() <= s.len()
            &&& t == s.skip(s.len() - t.len())
            &&& t.len() > 0 ==> !is_space(t[0])
            &&& forall|k: int| 0 <= k < s.len() - t.len() ==> is_space(#[trigger] s[k])
        }),
    decreases s.len(),
{
    let t = trim_start(s);
    if s.len() > 0 && is_space(s[0]) {
        let d = s.drop_first();
        trim_start_cuts_spaces(d);
        assert(s.skip(s.len() - t.len()) =~= d.skip(d.len() - t.len()));
        assert forall|k: int| 0 <= k < s.len() - t.len() implies is_space(#[trigger] s[k]) by {
            if k > 0 {
                assert(is_space(d[k - 1]));
            }
        }
    } else {
        assert(s.skip(0) =~= s);
    }
}

proof fn trim_end_cuts_spaces(s: Seq<char>)
    ensures
        ({
            let t = trim_end(s);
            &&& t.len() <= s.len()
            &&& t == s.take(t.len() as int)
            &&& t.len() > 0 ==> !is_space(t.last())
            &&& forall|k: int| t.len() <= k < s.len() ==> is_space(#[trigger] s[k])
        }),
    decreases s.len(),
{
    let t = trim_end(s);
    if s.len() > 0 && is_space(s.last()) {
        let d = s.drop_last();
        trim_end_cuts_spaces(d);
        assert(s.take(t.len() as int) =~= d.take(t.len() as int));
        assert forall|k: int| t.len() <= k < s.len() implies is_space(#[trigger] s[k]) by {
            if k < d.len() {
                assert(is_space(d[k]));
            }
        }
    } else {
        assert(s.take(s.len() as int) =~= s);
    }
}

proof fn word_stops_at_space(a: Seq<char>, c: char, b: Seq<char>)
    requires
        is_space(c),
    ensures
        word_len(a.push(c) + b) == word_len(a),
        0 <= word_len(a) <= a.len(),
        a.len() > 0 && !is_space(a[0]) ==> word_len(a) > 0,
    decreases a.len(),
{
    let s = a.push(c) + b;
    if a.len() > 0 {
        assert(s[0] == a[0]);
        if !is_space(a[0]) {
            word_stops_at_space(a.drop_first(), c, b);
            assert(s.drop_first() =~= a.drop_first().push(c) + b);
        }
    } else {
        assert(s[0] == c);
    }
}

/// No word goes over a white space: the words of a text are those before it and those behind it.
pub proof fn words_part_at_space(a: Seq<char>, c: char, b: Seq<char>)
    requires
        is_space(c),
    ensures
        words(a.push(c) + b) == words(a) + words(b),
    decreases a.len(),
{
    let s = a.push(c) + b;
    if a.len() == 0 {
        assert(s[0] == c);
        assert(s.drop_first() =~= b);
        assert(words(a) + words(b) =~= words(b));
    } else if is_space(a[0]) {
        assert(s[0] == a[0]);
        assert(s.drop_first() =~= a.drop_first().push(c) + b);
        words_part_at_space(a.drop_first(), c, b);
    } else {
        assert(s[0] == a[0]);
        word_stops_at_space(a, c, b);
        let n = word_len(a);
        assert(s.take(n) =~= a.take(n));
        assert(s.skip(n) =~= a.skip(n).push(c) + b);
        words_part_at_space(a.skip(n), c, b);
        assert(words(s) =~= words(a) + words(b));
    }
}

/// A text without white space is one word, and an empty text none.
pub proof fn word_alone(s: Seq<char>)
    requires
        forall|i: int| 0 <= i < s.len() ==> !is_space(#[trigger] s[i]),
    ensures
        words(s) == if s.len() > 0 {
            seq![s]
        } else {
            Seq::<Seq<char>>::empty()
        },
{
    if s.len() > 0 {
        word_is_whole(s);
        assert(s.take(s.len() as int) =~= s);
        assert(s.skip(s.len() as int) =~= Seq::empty());
        assert(words(s.skip(s.len() as int)) =~= Seq::empty());
        assert(words(s) =~= seq![s]);
    }
}

proof fn word_is_whole(s: Seq<char>)
    requires
        forall|i: int| 0 <= i < s.len() ==> !is_space(#[trigger] s[i]),
    ensures
        word_len(s) == s.len(),
    decreases s.len(),
{
    if s.len() > 0 {
        let d = s.drop_first();
        assert forall|i: int| 0 <= i < d.len() implies !is_space(#[trigger] d[i]) by {
            assert(d[i] == s[i + 1]);
        }
        word_is_whole(d);
    }
}

/// The first character in which two texts differ orders them, and a text stands before what it begins.
pub proof fn text_order(p: Seq<char>, a: Seq<char>, b: Seq<char>)
    ensures
        text_le(p, p + b),
        a.len() > 0 ==> !text_le(p + a, p),
        a.len() > 0 && b.len() > 0 && a[0] != b[0] ==> text_le(p + a, p + b) == (a[0] < b[0]),
    decreases p.len(),
{
    if p.len() > 0 {
        text_order(p.drop_first(), a, b);
        assert((p + a).drop_first() =~= p.drop_first() + a);
        assert((p + b).drop_first() =~= p.drop_first() + b);
    } else {
        assert(p + a =~= a);
        assert(p + b =~= b);
    }
}

/// Where a character stands first and last: at those places it stands, and nowhere before or behind them.
pub proof fn char_places(s: Seq<char>, c: char)
    ensures
        ({
            let k = char_at_first(s, c);
            if s.contains(c) {
                0 <= k < s.len() && s[k] == c && forall|j: int| 0 <= j < k ==> s[j] != c
            } else {
                k == -1
            }
        }),
        ({
            let k = char_at_last(s, c);
            if s.contains(c) {
                0 <= k < s.len() && s[k] == c && forall|j: int| k < j < s.len() ==> s[j] != c
            } else {
                k == -1
            }
        }),
    decreases s.len(),
{
    if s.len() > 0 {
        let d = s.drop_first();
        let t = s.drop_last();
        char_places(d, c);
        char_places(t, c);
        if s.contains(c) {
            let i = choose|i: int| 0 <= i < s.len() && s[i] == c;
            if i > 0 {
                assert(d[i - 1] == c);
            }
            if i < t.len() {
                assert(t[i] == c);
            }
            if s[0] != c {
                let k = char_at_first(s, c);
                assert(d[k - 1] == s[k]);
                assert forall|j: int| 0 <= j < k implies s[j] != c by {
                    if j > 0 {
                        assert(d[j - 1] == s[j]);
                    }
                }
            }
            if s.last() != c {
                let k = char_at_last(s, c);
                assert forall|j: int| k < j < s.len() implies s[j] != c by {
                    if j < t.len() {
                        assert(t[j] == s[j]);
                    }
                }
            }
        } else {
            assert(s[0] != c);
            assert(s.last() != c);
            if d.contains(c) {
                let i = choose|i: int| 0 <= i < d.len() && d[i] == c;
                assert(s[i + 1] == c);
            }
            if t.contains(c) {
                let i = choose|i: int| 0 <= i < t.len() && t[i] == c;
                assert(s[i] == c);
            }
        }
    }
}

/// A text begins with another exactly where that stands before the rest of it, ends with another exactly where that
/// stands behind the rest, and holds another exactly where that stands between two texts.
pub proof fn where_texts_stand(s: Seq<char>, a: Seq<char>, p: Seq<char>, b: Seq<char>)
    ensures
        has_prefix(p + b, p),
        has_prefix(s, p) ==> s == p + s.skip(p.len() as int),
        has_suffix(a + p, p),
        has_suffix(s, p) ==> s == s.take(s.len() - p.len()) + p,
        contains_text(a + p + b, p),
        occurs_at(s, p, a.len() as int) ==> s == s.take(a.len() as int) + p + s.skip((a.len() + p.len()) as int),
{
    assert((p + b).subrange(0, p.len() as int) =~= p);
    if has_prefix(s, p) {
        assert(s =~= s.subrange(0, p.len() as int) + s.skip(p.len() as int));
    }
    let e = a + p;
    assert(e.subrange(a.len() as int, e.len() as int) =~= p);
    if has_suffix(s, p) {
        let n = s.len() - p.len();
        assert(s =~= s.take(n) + s.subrange(n, n + p.len()));
    }
    let m = a + p + b;
    assert(m.subrange(a.len() as int, (a.len() + p.len()) as int) =~= p);
    assert(occurs_at(m, p, a.len() as int));
    if occurs_at(s, p, a.len() as int) {
        let n = a.len() as int;
        assert(s =~= s.take(n) + s.subrange(n, n + p.len()) + s.skip(n + p.len()));
    }
}

/// Which characters are white space.
pub proof fn white_space(c: char)
    ensures
        is_space(c) <==> {
            let n = c as u32;
            9 <= n <= 13 || n == 32 || n == 133 || n == 160 || n == 5760 || 8192 <= n <= 8202 || n == 8232 || n == 8233
                || n == 8239 || n == 8287 || n == 12288
        },
{
}

/// Strings stand for their characters, in their order.
pub proof fn strings_stand_for_their_characters(v: Seq<String>, i: int)
    requires
        0 <= i < v.len(),
    ensures
        texts(v).len() == v.len(),
        texts(v)[i] == v[i]@,
{
}

} // verus!

//! Character-level text helpers shared by the parsers and encoders.
use vstd::prelude::*;

verus! {

/// The characters of `s`, in order.
pub fn chars_of(s: &str) -> (out: Vec<char>)
    ensures
        out@ == s@,
{
    let mut out: Vec<char> = Vec::new();
    for c in it: s.chars()
        invariant
            out@ == it.seq().take(it.index() as int),
            it.seq() == s@,
    {
        out.push(c);
    }
    out
}

/// Appends one character to a string (`String::push`).
#[verifier::external_body]
pub(crate) fn push_char(s: &mut String, c: char)
    ensures
        final(s)@ == old(s)@.push(c),
{
    s.push(c);
}

/// The string made of `chars`, in order.
pub fn string_of(chars: &[char]) -> (out: String)
    ensures
        out@ == chars@,
{
    let mut out = String::new();
    let mut i: usize = 0;
    while i < chars.len()
        invariant
            i <= chars@.len(),
            out@ == chars@.take(i as int),
        decreases chars@.len() - i,
    {
        push_char(&mut out, chars[i]);
        assert(chars@.take(i as int + 1) == chars@.take(i as int).push(chars@[i as int]));
        i = i + 1;
    }
    assert(chars@.take(chars@.len() as int) == chars@);
    out
}

/// Index of the first occurrence of `c` in `s`, if any.
pub open spec fn first_index_of(s: Seq<char>, c: char) -> Option<int>
    decreases s.len(),
{
    if s.len() == 0 {
        None
    } else if s[0] == c {
        Some(0)
    } else {
        match first_index_of(s.drop_first(), c) {
            Some(i) => Some(i + 1),
            None => None,
        }
    }
}

pub proof fn lemma_first_index_of(s: Seq<char>, c: char)
    ensures
        match first_index_of(s, c) {
            Some(i) => 0 <= i < s.len() && s[i] == c && forall|j: int| 0 <= j < i ==> s[j] != c,
            None => forall|j: int| 0 <= j < s.len() ==> s[j] != c,
        },
    decreases s.len(),
{
    if s.len() > 0 && s[0] != c {
        lemma_first_index_of(s.drop_first(), c);
        match first_index_of(s.drop_first(), c) {
            Some(i) => {
                assert forall|j: int| 0 <= j < i + 1 implies s[j] != c by {
                    if j > 0 {
                        assert(s[j] == s.drop_first()[j - 1]);
                    }
                }
            },
            None => {
                assert forall|j: int| 0 <= j < s.len() implies s[j] != c by {
                    if j > 0 {
                        assert(s[j] == s.drop_first()[j - 1]);
                    }
                }
            },
        }
    }
}

/// `s` without one trailing carriage return.
pub open spec fn strip_cr(s: Seq<char>) -> Seq<char> {
    if s.len() > 0 && s.last() == '\r' {
        s.drop_last()
    } else {
        s
    }
}

/// The lines of `s`, as `str::lines` yields them: split after each line feed,
/// the line feed and one carriage return before it removed, and no empty
/// line after a final line feed.
pub open spec fn lines(s: Seq<char>) -> Seq<Seq<char>>
    decreases s.len(),
{
    if s.len() == 0 {
        seq![]
    } else {
        match first_index_of(s, '\n') {
            Some(k) => {
                if 0 <= k < s.len() {
                    seq![strip_cr(s.take(k))] + lines(s.skip(k + 1))
                } else {
                    seq![]
                }
            },
            None => seq![s],
        }
    }
}

/// A line that holds no line feed, followed by a line feed, is the first line.
pub proof fn lemma_lines_cons(a: Seq<char>, rest: Seq<char>)
    requires
        forall|i: int| 0 <= i < a.len() ==> a[i] != '\n',
    ensures
        lines(a + seq!['\n'] + rest) == seq![strip_cr(a)] + lines(rest),
{
    let s = a + seq!['\n'] + rest;
    lemma_first_index_of(s, '\n');
    assert(s[a.len() as int] == '\n');
    match first_index_of(s, '\n') {
        Some(k) => {
            if k < a.len() {
                assert(s[k] == a[k]);
            }
        },
        None => {},
    }
    assert(first_index_of(s, '\n') == Some(a.len() as int));
    assert(s.take(a.len() as int) =~= a);
    assert(s.skip(a.len() as int + 1) =~= rest);
}

/// `ls` written one per line, each followed by a line feed.
pub open spec fn join_lines(ls: Seq<Seq<char>>) -> Seq<char>
    decreases ls.len(),
{
    if ls.len() == 0 {
        seq![]
    } else {
        ls[0] + seq!['\n'] + join_lines(ls.skip(1))
    }
}

/// A line that `str::lines` gives back unchanged: no line feed, and no
/// carriage return at its end.
pub open spec fn plain_line(l: Seq<char>) -> bool {
    (forall|i: int| 0 <= i < l.len() ==> l[i] != '\n') && (l.len() > 0 ==> l.last() != '\r')
}

pub proof fn lemma_join_lines_push(ls: Seq<Seq<char>>, l: Seq<char>)
    ensures
        join_lines(ls.push(l)) == join_lines(ls) + l + seq!['\n'],
    decreases ls.len(),
{
    if ls.len() == 0 {
        assert(ls.push(l).skip(1) =~= Seq::<Seq<char>>::empty());
        assert(join_lines(Seq::<Seq<char>>::empty()) == Seq::<char>::empty());
        assert(join_lines(ls.push(l)) =~= l + seq!['\n']);
    } else {
        lemma_join_lines_push(ls.skip(1), l);
        assert(ls.push(l).skip(1) =~= ls.skip(1).push(l));
        assert(ls.push(l)[0] == ls[0]);
        assert(join_lines(ls.push(l)) =~= ls[0] + seq!['\n'] + (join_lines(ls.skip(1)) + l + seq!['\n']));
    }
}

/// Lines written with [`join_lines`] read back as the same lines.
pub proof fn lemma_lines_join(ls: Seq<Seq<char>>)
    requires
        forall|i: int| 0 <= i < ls.len() ==> plain_line(#[trigger] ls[i]),
    ensures
        lines(join_lines(ls)) == ls,
    decreases ls.len(),
{
    if ls.len() == 0 {
        assert(lines(Seq::<char>::empty()) =~= Seq::<Seq<char>>::empty());
    } else {
        assert(plain_line(ls[0]));
        assert forall|i: int| 0 <= i < ls.skip(1).len() implies plain_line(#[trigger] ls.skip(1)[i]) by {
            assert(ls.skip(1)[i] == ls[i + 1]);
        }
        lemma_lines_join(ls.skip(1));
        lemma_lines_cons(ls[0], join_lines(ls.skip(1)));
        assert(strip_cr(ls[0]) == ls[0]);
        assert(seq![ls[0]] + ls.skip(1) =~= ls);
    }
}

/// The pieces of `s` between occurrences of `sep`, as `str::split` yields them.
pub open spec fn split(s: Seq<char>, sep: char) -> Seq<Seq<char>>
    decreases s.len(),
{
    match first_index_of(s, sep) {
        Some(k) => {
            if 0 <= k < s.len() {
                seq![s.take(k)] + split(s.skip(k + 1), sep)
            } else {
                seq![s]
            }
        },
        None => seq![s],
    }
}

/// Index of the first `c` in `s[from..]`.
fn find_char_from(s: &[char], from: usize, c: char) -> (r: Option<usize>)
    requires
        from <= s@.len(),
    ensures
        match r {
            Some(k) => from <= k < s@.len() && first_index_of(s@.skip(from as int), c) == Some(k - from),
            None => first_index_of(s@.skip(from as int), c) is None,
        },
{
    let mut i = from;
    while i < s.len()
        invariant
            from <= i <= s@.len(),
            forall|j: int| from <= j < i ==> s@[j] != c,
        decreases s@.len() - i,
    {
        if s[i] == c {
            proof {
                lemma_first_index_of(s@.skip(from as int), c);
                let t = s@.skip(from as int);
                match first_index_of(t, c) {
                    Some(k) => {
                        assert(t[i - from] == c);
                        if k < i - from {
                            assert(s@[k + from] == t[k]);
                        }
                        if k > i - from {
                            assert(t[i - from] != c);
                        }
                    },
                    None => {
                        assert(t[i - from] == c);
                    },
                }
            }
            return Some(i);
        }
        i = i + 1;
    }
    proof {
        lemma_first_index_of(s@.skip(from as int), c);
        let t = s@.skip(from as int);
        match first_index_of(t, c) {
            Some(k) => {
                assert(s@[k + from] == t[k]);
            },
            None => {},
        }
    }
    None
}

/// The characters `s[from..to]`.
pub fn slice_chars(s: &[char], from: usize, to: usize) -> (out: Vec<char>)
    requires
        from <= to <= s@.len(),
    ensures
        out@ == s@.subrange(from as int, to as int),
{
    let mut out: Vec<char> = Vec::new();
    let mut i = from;
    while i < to
        invariant
            from <= i <= to <= s@.len(),
            out@ == s@.subrange(from as int, i as int),
        decreases to - i,
    {
        out.push(s[i]);
        assert(s@.subrange(from as int, i as int + 1) == s@.subrange(from as int, i as int).push(s@[i as int]));
        i = i + 1;
    }
    out
}

proof fn lemma_skip_skip(s: Seq<char>, a: int, b: int)
    requires
        0 <= a,
        0 <= b,
        a + b <= s.len(),
    ensures
        s.skip(a).skip(b) == s.skip(a + b),
{
    assert(s.skip(a).skip(b) =~= s.skip(a + b));
}

/// The lines of `s` (see [`lines`]).
pub fn split_lines(s: &[char]) -> (out: Vec<Vec<char>>)
    ensures
        out@.len() == lines(s@).len(),
        forall|i: int| 0 <= i < out@.len() ==> #[trigger] out@[i]@ == lines(s@)[i],
{
    let mut out: Vec<Vec<char>> = Vec::new();
    let mut pos: usize = 0;
    assert(s@.skip(0) == s@);
    assert(out@.map_values(|v: Vec<char>| v@) == Seq::<Seq<char>>::empty());
    while pos < s.len()
        invariant
            pos <= s@.len(),
            lines(s@) == out@.map_values(|v: Vec<char>| v@) + lines(s@.skip(pos as int)),
        decreases s@.len() - pos,
    {
        let ghost rest = s@.skip(pos as int);
        match find_char_from(s, pos, '\n') {
            Some(k) => {
                let mut line = slice_chars(s, pos, k);
                if line.len() > 0 && line[line.len() - 1] == '\r' {
                    line.pop();
                }
                proof {
                    assert(rest.take(k - pos) == s@.subrange(pos as int, k as int));
                    lemma_skip_skip(s@, pos as int, k - pos + 1);
                    assert(lines(rest) == seq![strip_cr(rest.take(k - pos))] + lines(rest.skip(k - pos + 1)));
                    assert(out@.push(line).map_values(|v: Vec<char>| v@) == out@.map_values(|v: Vec<char>| v@).push(line@));
                }
                out.push(line);
                pos = k + 1;
                proof {
                    assert(lines(s@) == out@.map_values(|v: Vec<char>| v@) + lines(s@.skip(pos as int)));
                }
            },
            None => {
                let line = slice_chars(s, pos, s.len());
                proof {
                    assert(rest == s@.subrange(pos as int, s@.len() as int));
                    assert(lines(rest) == seq![rest]);
                    assert(out@.push(line).map_values(|v: Vec<char>| v@) == out@.map_values(|v: Vec<char>| v@).push(line@));
                    assert(s@.skip(s@.len() as int).len() == 0);
                }
                out.push(line);
                pos = s.len();
                proof {
                    assert(lines(s@.skip(pos as int)) == Seq::<Seq<char>>::empty());
                    assert(lines(s@) == out@.map_values(|v: Vec<char>| v@) + lines(s@.skip(pos as int)));
                }
            },
        }
    }
    proof {
        assert(s@.skip(pos as int).len() == 0);
        assert(lines(s@) == out@.map_values(|v: Vec<char>| v@));
    }
    out
}

} // verus!

verus! {

/// The pieces of `s` separated by `sep` (see [`split`]).
pub fn split_on(s: &[char], sep: char) -> (out: Vec<Vec<char>>)
    ensures
        out@.len() == split(s@, sep).len(),
        forall|i: int| 0 <= i < out@.len() ==> #[trigger] out@[i]@ == split(s@, sep)[i],
{
    let mut out: Vec<Vec<char>> = Vec::new();
    let mut pos: usize = 0;
    assert(s@.skip(0) == s@);
    assert(out@.map_values(|v: Vec<char>| v@) == Seq::<Seq<char>>::empty());
    loop
        invariant
            pos <= s@.len(),
            split(s@, sep) == out@.map_values(|v: Vec<char>| v@) + split(s@.skip(pos as int), sep),
        decreases s@.len() - pos,
    {
        let ghost rest = s@.skip(pos as int);
        match find_char_from(s, pos, sep) {
            Some(k) => {
                let piece = slice_chars(s, pos, k);
                proof {
                    assert(rest.take(k - pos) == s@.subrange(pos as int, k as int));
                    lemma_skip_skip(s@, pos as int, k - pos + 1);
                    assert(out@.push(piece).map_values(|v: Vec<char>| v@) == out@.map_values(|v: Vec<char>| v@).push(piece@));
                }
                out.push(piece);
                assert(k < s@.len());
                let n = s.len();
                assert(k < n);
                pos = k + 1;
            },
            None => {
                let piece = slice_chars(s, pos, s.len());
                proof {
                    assert(rest == s@.subrange(pos as int, s@.len() as int));
                    assert(out@.push(piece).map_values(|v: Vec<char>| v@) == out@.map_values(|v: Vec<char>| v@).push(piece@));
                }
                out.push(piece);
                return out;
            },
        }
    }
}

/// True when `s` begins with `prefix`.
pub open spec fn has_prefix(s: Seq<char>, prefix: Seq<char>) -> bool {
    prefix.len() <= s.len() && s.take(prefix.len() as int) == prefix
}

/// True when `s` ends with `suffix`.
pub open spec fn has_suffix(s: Seq<char>, suffix: Seq<char>) -> bool {
    suffix.len() <= s.len() && s.skip(s.len() - suffix.len()) == suffix
}

pub fn starts_with(s: &[char], prefix: &[char]) -> (r: bool)
    ensures
        r == has_prefix(s@, prefix@),
{
    if prefix.len() > s.len() {
        return false;
    }
    let mut i: usize = 0;
    while i < prefix.len()
        invariant
            prefix@.len() <= s@.len(),
            i <= prefix@.len(),
            forall|j: int| 0 <= j < i ==> s@[j] == prefix@[j],
        decreases prefix@.len() - i,
    {
        if s[i] != prefix[i] {
            assert(s@.take(prefix@.len() as int)[i as int] != prefix@[i as int]);
            return false;
        }
        i = i + 1;
    }
    assert(s@.take(prefix@.len() as int) =~= prefix@);
    true
}

pub fn ends_with(s: &[char], suffix: &[char]) -> (r: bool)
    ensures
        r == has_suffix(s@, suffix@),
{
    if suffix.len() > s.len() {
        return false;
    }
    let n = s.len();
    let off = n - suffix.len();
    let mut i: usize = 0;
    while i < suffix.len()
        invariant
            n == s@.len(),
            suffix@.len() <= s@.len(),
            off == s@.len() - suffix@.len(),
            i <= suffix@.len(),
            forall|j: int| 0 <= j < i ==> s@[off + j] == suffix@[j],
        decreases suffix@.len() - i,
    {
        assert(off + i < s@.len());
        if s[off + i] != suffix[i] {
            assert(s@.skip(off as int)[i as int] != suffix@[i as int]);
            return false;
        }
        i = i + 1;
    }
    assert(s@.skip(off as int) =~= suffix@);
    true
}

/// Equality of two character sequences.
pub fn chars_eq(a: &[char], b: &[char]) -> (r: bool)
    ensures
        r == (a@ == b@),
{
    if a.len() != b.len() {
        return false;
    }
    let r = starts_with(a, b);
    proof {
        assert(a@.take(b@.len() as int) == a@);
    }
    r
}

/// The characters of a string literal.
pub fn lit(s: &str) -> (out: Vec<char>)
    ensures
        out@ == s@,
{
    chars_of(s)
}

} // verus!

verus! {

/// `char::is_control`: the Unicode general category Cc.
pub open spec fn is_control(c: char) -> bool {
    (c as u32) <= 0x1f || (0x7f <= (c as u32) && (c as u32) <= 0x9f)
}

/// `char::is_whitespace`: the Unicode White_Space property.
pub open spec fn is_whitespace(c: char) -> bool {
    let u = c as u32;
    (0x9 <= u && u <= 0xd) || u == 0x20 || u == 0x85 || u == 0xa0 || u == 0x1680 || (0x2000 <= u
        && u <= 0x200a) || u == 0x2028 || u == 0x2029 || u == 0x202f || u == 0x205f || u == 0x3000
}

pub fn char_is_control(c: char) -> (r: bool)
    ensures
        r == is_control(c),
{
    let u = c as u32;
    u <= 0x1f || (0x7f <= u && u <= 0x9f)
}

pub fn char_is_whitespace(c: char) -> (r: bool)
    ensures
        r == is_whitespace(c),
{
    let u = c as u32;
    (0x9 <= u && u <= 0xd) || u == 0x20 || u == 0x85 || u == 0xa0 || u == 0x1680 || (0x2000 <= u
        && u <= 0x200a) || u == 0x2028 || u == 0x2029 || u == 0x202f || u == 0x205f || u == 0x3000
}

pub open spec fn any_control(s: Seq<char>) -> bool {
    exists|i: int| 0 <= i < s.len() && is_control(#[trigger] s[i])
}

pub open spec fn all_whitespace(s: Seq<char>) -> bool {
    forall|i: int| 0 <= i < s.len() ==> is_whitespace(#[trigger] s[i])
}

pub fn has_control(s: &[char]) -> (r: bool)
    ensures
        r == any_control(s@),
{
    let mut i: usize = 0;
    while i < s.len()
        invariant
            i <= s@.len(),
            forall|j: int| 0 <= j < i ==> !is_control(#[trigger] s@[j]),
        decreases s@.len() - i,
    {
        if char_is_control(s[i]) {
            return true;
        }
        i = i + 1;
    }
    false
}

/// True when `str::trim` of `s` is empty.
pub fn is_blank(s: &[char]) -> (r: bool)
    ensures
        r == all_whitespace(s@),
{
    let mut i: usize = 0;
    while i < s.len()
        invariant
            i <= s@.len(),
            forall|j: int| 0 <= j < i ==> is_whitespace(#[trigger] s@[j]),
        decreases s@.len() - i,
    {
        if !char_is_whitespace(s[i]) {
            return false;
        }
        i = i + 1;
    }
    true
}

/// Number of leading whitespace characters of `s`.
pub open spec fn leading_ws(s: Seq<char>) -> nat
    decreases s.len(),
{
    if s.len() > 0 && is_whitespace(s[0]) {
        1 + leading_ws(s.drop_first())
    } else {
        0
    }
}

/// Number of trailing whitespace characters of `s`.
pub open spec fn trailing_ws(s: Seq<char>) -> nat
    decreases s.len(),
{
    if s.len() > 0 && is_whitespace(s.last()) {
        1 + trailing_ws(s.drop_last())
    } else {
        0
    }
}

/// `str::trim_start`.
pub open spec fn trim_start(s: Seq<char>) -> Seq<char> {
    s.skip(leading_ws(s) as int)
}

/// `str::trim_end`.
pub open spec fn trim_end(s: Seq<char>) -> Seq<char> {
    s.take(s.len() - trailing_ws(s))
}

/// `str::trim`.
pub open spec fn trim(s: Seq<char>) -> Seq<char> {
    trim_end(trim_start(s))
}

proof fn lemma_leading_ws(s: Seq<char>, i: int)
    requires
        0 <= i <= s.len(),
        forall|j: int| 0 <= j < i ==> is_whitespace(#[trigger] s[j]),
        i == s.len() || !is_whitespace(s[i]),
    ensures
        leading_ws(s) == i,
    decreases s.len(),
{
    if i > 0 {
        assert forall|j: int| 0 <= j < i - 1 implies is_whitespace(#[trigger] s.drop_first()[j]) by {
            assert(s.drop_first()[j] == s[j + 1]);
        }
        if i < s.len() {
            assert(s.drop_first()[i - 1] == s[i]);
        }
        lemma_leading_ws(s.drop_first(), i - 1);
    }
}

proof fn lemma_trailing_ws(s: Seq<char>, k: int)
    requires
        0 <= k <= s.len(),
        forall|j: int| k <= j < s.len() ==> is_whitespace(#[trigger] s[j]),
        k == 0 || !is_whitespace(s[k - 1]),
    ensures
        trailing_ws(s) == s.len() - k,
    decreases s.len(),
{
    if k < s.len() {
        assert forall|j: int| k <= j < s.drop_last().len() implies is_whitespace(#[trigger] s.drop_last()[j]) by {
            assert(s.drop_last()[j] == s[j]);
        }
        if k > 0 {
            assert(s.drop_last()[k - 1] == s[k - 1]);
        }
        lemma_trailing_ws(s.drop_last(), k);
    }
}

pub fn trim_start_chars(s: &[char]) -> (out: Vec<char>)
    ensures
        out@ == trim_start(s@),
{
    let mut i: usize = 0;
    while i < s.len() && char_is_whitespace(s[i])
        invariant
            i <= s@.len(),
            forall|j: int| 0 <= j < i ==> is_whitespace(#[trigger] s@[j]),
        decreases s@.len() - i,
    {
        i = i + 1;
    }
    proof {
        lemma_leading_ws(s@, i as int);
    }
    slice_chars(s, i, s.len())
}

pub fn trim_end_chars(s: &[char]) -> (out: Vec<char>)
    ensures
        out@ == trim_end(s@),
{
    let mut k: usize = s.len();
    while k > 0 && char_is_whitespace(s[k - 1])
        invariant
            k <= s@.len(),
            forall|j: int| k <= j < s@.len() ==> is_whitespace(#[trigger] s@[j]),
        decreases k,
    {
        k = k - 1;
    }
    proof {
        lemma_trailing_ws(s@, k as int);
    }
    slice_chars(s, 0, k)
}

pub fn trim_chars(s: &[char]) -> (out: Vec<char>)
    ensures
        out@ == trim(s@),
{
    let a = trim_start_chars(s);
    trim_end_chars(&a)
}

/// The UTF-8 bytes of `chars`.
pub fn utf8_bytes(chars: &[char]) -> (out: Vec<u8>)
    ensures
        out@ == vstd::utf8::encode_utf8(chars@),
{
    let s = string_of(chars);
    let b = s.as_str().as_bytes();
    vstd::slice::slice_to_vec(b)
}

/// `std::str::from_utf8`: the text that `bytes` encode, when they are valid UTF-8.
#[verifier::external_body]
pub(crate) fn utf8_text(bytes: &[u8]) -> (r: Option<&str>)
    ensures
        r is Some <==> vstd::utf8::valid_utf8(bytes@),
        r matches Some(s) ==> s@ == vstd::utf8::decode_utf8(bytes@),
{
    std::str::from_utf8(bytes).ok()
}


/// The lines `ls`, each followed by a line feed (see [`join_lines`]).
pub fn join_char_lines(ls: &Vec<Vec<char>>) -> (out: Vec<char>)
    ensures
        out@ == join_lines(ls@.map_values(|l: Vec<char>| l@)),
{
    let ghost views = ls@.map_values(|l: Vec<char>| l@);
    let mut out: Vec<char> = Vec::new();
    let mut i: usize = 0;
    assert(views.take(0) =~= Seq::<Seq<char>>::empty());
    while i < ls.len()
        invariant
            i <= ls@.len(),
            views == ls@.map_values(|l: Vec<char>| l@),
            out@ == join_lines(views.take(i as int)),
        decreases ls@.len() - i,
    {
        let mut line = ls[i].clone();
        assert(line@ == views[i as int]);
        out.append(&mut line);
        out.push('\n');
        proof {
            assert(views.take(i as int + 1) =~= views.take(i as int).push(views[i as int]));
            lemma_join_lines_push(views.take(i as int), views[i as int]);
        }
        i = i + 1;
    }
    assert(views.take(ls@.len() as int) =~= views);
    out
}


/// `char::to_ascii_lowercase`.
pub open spec fn lower_char(c: char) -> char {
    if 'A' <= c && c <= 'Z' {
        ((c as u32) + 32) as char
    } else {
        c
    }
}

/// `str::to_ascii_lowercase`.
pub open spec fn ascii_lower(s: Seq<char>) -> Seq<char> {
    s.map_values(|c: char| lower_char(c))
}

pub fn char_to_ascii_lower(c: char) -> (r: char)
    ensures
        r == lower_char(c),
{
    if 'A' <= c && c <= 'Z' {
        let b: u8 = (c as u8) + 32;
        b as char
    } else {
        c
    }
}

/// The ASCII-lowercased characters of `s`.
pub fn to_ascii_lower(s: &[char]) -> (out: Vec<char>)
    ensures
        out@ == ascii_lower(s@),
{
    let mut out: Vec<char> = Vec::new();
    let mut i: usize = 0;
    while i < s.len()
        invariant
            i <= s@.len(),
            out@ == ascii_lower(s@.take(i as int)),
        decreases s@.len() - i,
    {
        out.push(char_to_ascii_lower(s[i]));
        assert(ascii_lower(s@.take(i as int + 1)) =~= ascii_lower(s@.take(i as int)).push(lower_char(s@[i as int])));
        i = i + 1;
    }
    assert(s@.take(s@.len() as int) =~= s@);
    out
}


/// ASCII whitespace: space, tab, line feed, form feed and carriage return.
pub open spec fn is_ascii_whitespace(c: char) -> bool {
    c == ' ' || c == '\t' || c == '\n' || c == '\x0C' || c == '\r'
}

/// A word separator: ASCII whitespace when `ascii`, else Unicode whitespace.
pub open spec fn is_separator(c: char, ascii: bool) -> bool {
    if ascii {
        is_ascii_whitespace(c)
    } else {
        is_whitespace(c)
    }
}

fn char_is_separator(c: char, ascii: bool) -> (r: bool)
    ensures
        r == is_separator(c, ascii),
{
    if ascii {
        c == ' ' || c == '\t' || c == '\n' || c == '\x0C' || c == '\r'
    } else {
        char_is_whitespace(c)
    }
}

/// Index of the first separator of `s`: ASCII whitespace when `ascii`,
/// else Unicode whitespace.
pub open spec fn first_ws(s: Seq<char>, ascii: bool) -> Option<int>
    decreases s.len(),
{
    if s.len() == 0 {
        None
    } else if is_separator(s[0], ascii) {
        Some(0)
    } else {
        match first_ws(s.drop_first(), ascii) {
            Some(i) => Some(i + 1),
            None => None,
        }
    }
}

proof fn lemma_first_ws(s: Seq<char>, ascii: bool)
    ensures
        match first_ws(s, ascii) {
            Some(i) => 0 <= i < s.len() && is_separator(s[i], ascii) && forall|j: int| 0 <= j < i ==> !is_separator(s[j], ascii),
            None => forall|j: int| 0 <= j < s.len() ==> !is_separator(s[j], ascii),
        },
    decreases s.len(),
{
    if s.len() > 0 && !is_separator(s[0], ascii) {
        lemma_first_ws(s.drop_first(), ascii);
        match first_ws(s.drop_first(), ascii) {
            Some(i) => {
                assert forall|j: int| 0 <= j < i + 1 implies !is_separator(s[j], ascii) by {
                    if j > 0 {
                        assert(s[j] == s.drop_first()[j - 1]);
                    }
                }
            },
            None => {
                assert forall|j: int| 0 <= j < s.len() implies !is_separator(s[j], ascii) by {
                    if j > 0 {
                        assert(s[j] == s.drop_first()[j - 1]);
                    }
                }
            },
        }
    }
}

/// The non-empty runs of characters between separators (see [`first_ws`]).
pub open spec fn words_by(s: Seq<char>, ascii: bool) -> Seq<Seq<char>>
    decreases s.len(),
{
    match first_ws(s, ascii) {
        Some(k) => if 0 <= k < s.len() {
            (if k > 0 {
                seq![s.take(k)]
            } else {
                seq![]
            }) + words_by(s.skip(k + 1), ascii)
        } else {
            seq![]
        },
        None => if s.len() > 0 {
            seq![s]
        } else {
            seq![]
        },
    }
}

/// The words of `s` (see [`words_by`]).
pub fn split_words_by(s: &[char], ascii: bool) -> (out: Vec<Vec<char>>)
    ensures
        out@.map_values(|v: Vec<char>| v@) == words_by(s@, ascii),
{
    let mut out: Vec<Vec<char>> = Vec::new();
    let mut start: usize = 0;
    let mut cur: Vec<char> = Vec::new();
    let mut i: usize = 0;
    let n = s.len();
    assert(s@.skip(0) =~= s@);
    while i < n
        invariant
            n == s@.len(),
            start <= i <= n,
            cur@ == s@.subrange(start as int, i as int),
            forall|j: int| start <= j < i ==> !is_separator(s@[j], ascii),
            out@.map_values(|v: Vec<char>| v@) + words_by(s@.skip(start as int), ascii) == words_by(s@, ascii),
        decreases n - i,
    {
        if char_is_separator(s[i], ascii) {
            proof {
                let t = s@.skip(start as int);
                lemma_first_ws(t, ascii);
                assert(t[i - start] == s@[i as int]);
                match first_ws(t, ascii) {
                    Some(k) => {
                        if k < i - start {
                            assert(t[k] == s@[start + k]);
                        }
                    },
                    None => {},
                }
                assert(first_ws(t, ascii) == Some(i - start));
                assert(t.take(i - start) =~= cur@);
                assert(t.skip(i - start + 1) =~= s@.skip(i + 1));
            }
            let ghost before = out@.map_values(|v: Vec<char>| v@);
            if cur.len() > 0 {
                out.push(cur);
                proof {
                    assert(out@.map_values(|v: Vec<char>| v@) =~= before + seq![s@.subrange(start as int, i as int)]);
                    assert(before + words_by(s@.skip(start as int), ascii) =~= before + seq![s@.subrange(start as int, i as int)] + words_by(s@.skip(i + 1), ascii));
                }
            } else {
                proof {
                    assert(before + words_by(s@.skip(start as int), ascii) =~= before + words_by(s@.skip(i + 1), ascii));
                }
            }
            cur = Vec::new();
            start = i + 1;
            assert(s@.subrange(start as int, start as int) =~= Seq::<char>::empty());
        } else {
            cur.push(s[i]);
            assert(s@.subrange(start as int, i + 1) =~= s@.subrange(start as int, i as int).push(s@[i as int]));
        }
        i = i + 1;
    }
    proof {
        let t = s@.skip(start as int);
        lemma_first_ws(t, ascii);
        assert(t =~= cur@);
        match first_ws(t, ascii) {
            Some(k) => {
                assert(t[k] == s@[start + k]);
            },
            None => {},
        }
    }
    let ghost before = out@.map_values(|v: Vec<char>| v@);
    if cur.len() > 0 {
        out.push(cur);
        assert(out@.map_values(|v: Vec<char>| v@) =~= before + seq![s@.skip(start as int)]);
    } else {
        assert(words_by(s@.skip(start as int), ascii) =~= Seq::<Seq<char>>::empty());
        assert(out@.map_values(|v: Vec<char>| v@) =~= before + words_by(s@.skip(start as int), ascii));
    }
    out
}

/// `str::split_whitespace`: the non-empty runs of non-whitespace characters.
pub open spec fn words(s: Seq<char>) -> Seq<Seq<char>> {
    words_by(s, false)
}

/// `str::split_ascii_whitespace`: the non-empty runs of characters other
/// than ASCII whitespace.
pub open spec fn ascii_words(s: Seq<char>) -> Seq<Seq<char>> {
    words_by(s, true)
}

/// The words of `s` (see [`words`]).
pub fn split_words(s: &[char]) -> (out: Vec<Vec<char>>)
    ensures
        out@.map_values(|v: Vec<char>| v@) == words(s@),
{
    split_words_by(s, false)
}

/// The ASCII-whitespace-separated words of `s` (see [`ascii_words`]).
pub fn split_ascii_words(s: &[char]) -> (out: Vec<Vec<char>>)
    ensures
        out@.map_values(|v: Vec<char>| v@) == ascii_words(s@),
{
    split_words_by(s, true)
}

/// `p` occurs in `t` at `i`.
pub open spec fn found_at(t: Seq<char>, p: Seq<char>, i: int) -> bool {
    0 <= i && i + p.len() <= t.len() && t.subrange(i, i + p.len()) == p
}

/// The first position at or after `from` where `p` occurs in `t`.
pub open spec fn find_from(t: Seq<char>, p: Seq<char>, from: int) -> Option<int>
    decreases t.len() - from,
{
    if from < 0 || from + p.len() > t.len() {
        None
    } else if found_at(t, p, from) {
        Some(from)
    } else if from >= t.len() {
        None
    } else {
        find_from(t, p, from + 1)
    }
}

/// `str::find`: the first position at which `p` occurs in `t`.
pub open spec fn first_occurrence(t: Seq<char>, p: Seq<char>) -> Option<int> {
    find_from(t, p, 0)
}

pub proof fn lemma_find_from(t: Seq<char>, p: Seq<char>, from: int)
    requires
        0 <= from,
    ensures
        match find_from(t, p, from) {
            Some(k) => from <= k && found_at(t, p, k) && forall|j: int| from <= j < k ==> !found_at(t, p, j),
            None => forall|j: int| from <= j ==> !found_at(t, p, j),
        },
    decreases t.len() - from,
{
    if from + p.len() <= t.len() && !found_at(t, p, from) {
        if from < t.len() {
            lemma_find_from(t, p, from + 1);
        } else {
            assert(p.len() == 0);
            assert(t.subrange(from, from) =~= p);
        }
    }
}

/// Position of the first occurrence of `p` in `t`.
pub fn find_chars(t: &[char], p: &[char]) -> (r: Option<usize>)
    ensures
        match r {
            Some(k) => first_occurrence(t@, p@) == Some(k as int),
            None => first_occurrence(t@, p@) is None,
        },
{
    let tl: usize = t.len();
    if p.len() > tl {
        return None;
    }
    let last: usize = tl - p.len();
    let mut i: usize = 0;
    loop
        invariant
            i <= last,
            last + p@.len() == t@.len(),
            tl == t@.len(),
            find_from(t@, p@, 0) == find_from(t@, p@, i as int),
        decreases last - i,
    {
        let mut j: usize = 0;
        let mut matched = true;
        while j < p.len()
            invariant
                i + p@.len() <= t@.len(),
                tl == t@.len(),
                j <= p@.len(),
                matched == (forall|m: int| 0 <= m < j ==> t@[i + m] == p@[m]),
            decreases p@.len() - j,
        {
            assert(i + j < t@.len());
            if t[i + j] != p[j] {
                matched = false;
            }
            j = j + 1;
        }
        proof {
            if matched {
                assert(t@.subrange(i as int, i + p@.len()) =~= p@);
            } else {
                let m = choose|m: int| 0 <= m < p@.len() && t@[i + m] != p@[m];
                assert(t@.subrange(i as int, i + p@.len())[m] != p@[m]);
            }
        }
        if matched {
            return Some(i);
        }
        if i == last {
            assert(find_from(t@, p@, i + 1) is None);
            return None;
        }
        i = i + 1;
    }
}


/// `a` followed by `b`.
pub fn concat_str(a: &str, b: &str) -> (out: String)
    ensures
        out@ == a@ + b@,
{
    let mut x = chars_of(a);
    let mut y = chars_of(b);
    x.append(&mut y);
    string_of(&x)
}

} // verus!

//! Character-level text handling shared by the parsers: the model of a string is its
//! sequence of characters (`Seq<char>`), and every helper here is stated over that model.
use vstd::prelude::*;

verus! {

// ---------------------------------------------------------------------------------------------
// Character classes
// ---------------------------------------------------------------------------------------------

/// Unicode `White_Space` (what `char::is_whitespace`, `str::trim` and `split_whitespace` use).
pub open spec fn is_ws(c: char) -> bool {
    let u = c as u32;
    ||| 0x09 <= u <= 0x0d
    ||| u == 0x20
    ||| u == 0x85
    ||| u == 0xa0
    ||| u == 0x1680
    ||| 0x2000 <= u <= 0x200a
    ||| u == 0x2028
    ||| u == 0x2029
    ||| u == 0x202f
    ||| u == 0x205f
    ||| u == 0x3000
}

pub open spec fn is_digit(c: char) -> bool {
    '0' <= c && c <= '9'
}

pub open spec fn digit_value(c: char) -> int {
    (c as u32) - ('0' as u32)
}

pub open spec fn is_ascii_alpha(c: char) -> bool {
    ('a' <= c && c <= 'z') || ('A' <= c && c <= 'Z')
}

pub open spec fn is_ascii_alnum(c: char) -> bool {
    is_ascii_alpha(c) || is_digit(c)
}

pub open spec fn ascii_lower(c: char) -> char {
    if 'A' <= c && c <= 'Z' {
        ((c as u32) + 32) as char
    } else {
        c
    }
}

/// `char::is_whitespace`.
pub fn char_is_ws(c: char) -> (b: bool)
    ensures
        b == is_ws(c),
{
    let u = c as u32;
    (0x09 <= u && u <= 0x0d) || u == 0x20 || u == 0x85 || u == 0xa0 || u == 0x1680 || (0x2000
        <= u && u <= 0x200a) || u == 0x2028 || u == 0x2029 || u == 0x202f || u == 0x205f || u
        == 0x3000
}

/// `char::is_ascii_digit`.
pub fn char_is_digit(c: char) -> (b: bool)
    ensures
        b == is_digit(c),
{
    '0' <= c && c <= '9'
}

/// `char::is_ascii_alphanumeric`.
pub fn char_is_ascii_alnum(c: char) -> (b: bool)
    ensures
        b == is_ascii_alnum(c),
{
    ('a' <= c && c <= 'z') || ('A' <= c && c <= 'Z') || ('0' <= c && c <= '9')
}

/// `char::to_ascii_lowercase`.
pub fn char_ascii_lower(c: char) -> (r: char)
    ensures
        r == ascii_lower(c),
{
    if 'A' <= c && c <= 'Z' {
        ((c as u8) + 32) as char
    } else {
        c
    }
}

// ---------------------------------------------------------------------------------------------
// Strings as character sequences
// ---------------------------------------------------------------------------------------------

/// Appends one character to a string.
///
/// Trusted: wraps `String::push`, whose documentation says it appends the given
/// char to the end of the string.
#[verifier::external_body]
fn push_char(s: &mut String, c: char)
    ensures
        final(s)@ == old(s)@.push(c),
{
    s.push(c);
}

/// The characters of a string slice, in order.
pub fn chars_of(s: &str) -> (v: Vec<char>)
    ensures
        v@ == s@,
{
    let mut v: Vec<char> = Vec::new();
    for c in it: s.chars()
        invariant
            v@ == it.seq().take(it.index() as int),
            it.seq() == s@,
    {
        v.push(c);
    }
    v
}

/// Builds a string from a sequence of characters.
pub fn string_of(v: &[char]) -> (s: String)
    ensures
        s@ == v@,
{
    let mut s = String::new();
    let mut i: usize = 0;
    while i < v.len()
        invariant
            i <= v.len(),
            s@ == v@.take(i as int),
        decreases v.len() - i,
    {
        push_char(&mut s, v[i]);
        assert(v@.take(i as int).push(v@[i as int]) =~= v@.take(i as int + 1));
        i += 1;
    }
    assert(v@.take(v.len() as int) =~= v@);
    s
}

/// Copies `v[from..to]`.
pub fn copy_range(v: &[char], from: usize, to: usize) -> (r: Vec<char>)
    requires
        from <= to <= v.len(),
    ensures
        r@ == v@.subrange(from as int, to as int),
{
    let mut r: Vec<char> = Vec::new();
    let mut i = from;
    while i < to
        invariant
            from <= i <= to <= v.len(),
            r@ == v@.subrange(from as int, i as int),
        decreases to - i,
    {
        r.push(v[i]);
        assert(v@.subrange(from as int, i as int).push(v@[i as int]) =~= v@.subrange(
            from as int,
            i + 1,
        ));
        i += 1;
    }
    r
}

/// Appends every character of `w` to `v`.
pub fn append_chars(v: &mut Vec<char>, w: &[char])
    ensures
        final(v)@ == old(v)@ + w@,
{
    let mut i: usize = 0;
    while i < w.len()
        invariant
            i <= w.len(),
            v@ == old(v)@ + w@.take(i as int),
        decreases w.len() - i,
    {
        v.push(w[i]);
        assert(old(v)@ + w@.take(i as int + 1) =~= (old(v)@ + w@.take(i as int)).push(w@[i as int]));
        i += 1;
    }
    assert(w@.take(w.len() as int) =~= w@);
}

/// Equality of two character sequences.
pub fn chars_eq(a: &[char], b: &[char]) -> (r: bool)
    ensures
        r == (a@ == b@),
{
    if a.len() != b.len() {
        return false;
    }
    let mut i: usize = 0;
    while i < a.len()
        invariant
            a.len() == b.len(),
            i <= a.len(),
            forall|j: int| 0 <= j < i ==> a@[j] == b@[j],
        decreases a.len() - i,
    {
        if a[i] != b[i] {
            return false;
        }
        i += 1;
    }
    assert(a@ =~= b@);
    true
}

pub open spec fn starts_with(s: Seq<char>, p: Seq<char>) -> bool {
    p.len() <= s.len() && s.take(p.len() as int) == p
}

pub open spec fn ends_with(s: Seq<char>, p: Seq<char>) -> bool {
    p.len() <= s.len() && s.skip(s.len() - p.len()) == p
}

/// Whether `p` occurs in `s` starting at position `at`.
pub open spec fn occurs_at(s: Seq<char>, p: Seq<char>, at: int) -> bool {
    0 <= at && at + p.len() <= s.len() && s.subrange(at, at + p.len()) == p
}

pub open spec fn contains_seq(s: Seq<char>, p: Seq<char>) -> bool {
    exists|i: int| occurs_at(s, p, i)
}

/// Whether `p` occurs in `v` at position `at`.
pub fn occurs_at_exec(v: &[char], p: &[char], at: usize) -> (r: bool)
    ensures
        r == occurs_at(v@, p@, at as int),
{
    if at > v.len() || p.len() > v.len() - at {
        return false;
    }
    let mut i: usize = 0;
    while i < p.len()
        invariant
            at + p.len() <= v.len(),
            i <= p.len(),
            forall|j: int| 0 <= j < i ==> v@[at + j] == p@[j],
        decreases p.len() - i,
    {
        if v[at + i] != p[i] {
            assert(v@.subrange(at as int, at + p.len())[i as int] != p@[i as int]);
            return false;
        }
        i += 1;
    }
    assert(v@.subrange(at as int, at + p.len()) =~= p@);
    true
}

/// `str::starts_with`.
pub fn starts_with_exec(v: &[char], p: &[char]) -> (r: bool)
    ensures
        r == starts_with(v@, p@),
{
    let r = occurs_at_exec(v, p, 0);
    assert(r == starts_with(v@, p@)) by {
        if p.len() <= v.len() {
            assert(v@.subrange(0, p@.len() as int) =~= v@.take(p@.len() as int));
        }
    }
    r
}

/// `str::ends_with`.
pub fn ends_with_exec(v: &[char], p: &[char]) -> (r: bool)
    ensures
        r == ends_with(v@, p@),
{
    if p.len() > v.len() {
        return false;
    }
    let r = occurs_at_exec(v, p, v.len() - p.len());
    assert(v@.subrange(v.len() - p.len(), v.len() as int) =~= v@.skip(v.len() - p.len()));
    r
}

/// First position at or after `from` where `p` occurs, if any (`str::find` from an offset).
pub open spec fn find_from(s: Seq<char>, p: Seq<char>, from: int) -> Option<int> {
    if exists|i: int| from <= i && occurs_at(s, p, i) {
        Some(
            choose|i: int|
                from <= i && occurs_at(s, p, i) && forall|j: int|
                    from <= j < i ==> !occurs_at(s, p, j),
        )
    } else {
        None
    }
}

/// Finds the first occurrence of `p` in `v` at or after `from`.
pub fn find_exec(v: &[char], p: &[char], from: usize) -> (r: Option<usize>)
    ensures
        match r {
            Some(i) => from <= i && occurs_at(v@, p@, i as int) && forall|j: int|
                from <= j < i ==> !occurs_at(v@, p@, j),
            None => forall|j: int| from <= j ==> !occurs_at(v@, p@, j),
        },
        r matches Some(i) ==> find_from(v@, p@, from as int) == Some(i as int),
        r is None ==> find_from(v@, p@, from as int) is None,
{
    let mut i = from;
    if i > v.len() {
        return None;
    }
    loop
        invariant
            from <= i <= v.len(),
            forall|j: int| from <= j < i ==> !occurs_at(v@, p@, j),
        decreases v.len() - i,
    {
        if occurs_at_exec(v, p, i) {
            proof {
                let k = choose|k: int|
                    from <= k && occurs_at(v@, p@, k) && forall|j: int|
                        from <= j < k ==> !occurs_at(v@, p@, j);
                assert(occurs_at(v@, p@, i as int));
                if k < i {
                    assert(!occurs_at(v@, p@, k));
                } else if k > i {
                    assert(!occurs_at(v@, p@, i as int));
                }
            }
            return Some(i);
        }
        if i == v.len() {
            assert forall|j: int| from <= j implies !occurs_at(v@, p@, j) by {
                if j > i {
                    assert(j + p@.len() > v@.len());
                }
            }
            return None;
        }
        i += 1;
    }
}

/// First index of character `c` in `s` at or after `from`, or `s.len()` when there is none.
pub open spec fn index_of_char(s: Seq<char>, c: char, from: int) -> int
    decreases s.len() - from,
{
    if from >= s.len() {
        s.len() as int
    } else if s[from] == c {
        from
    } else {
        index_of_char(s, c, from + 1)
    }
}

pub proof fn lemma_index_of_char(s: Seq<char>, c: char, from: int)
    requires
        0 <= from <= s.len(),
    ensures
        from <= index_of_char(s, c, from) <= s.len(),
        index_of_char(s, c, from) < s.len() ==> s[index_of_char(s, c, from)] == c,
        forall|j: int| from <= j < index_of_char(s, c, from) ==> s[j] != c,
    decreases s.len() - from,
{
    if from < s.len() && s[from] != c {
        lemma_index_of_char(s, c, from + 1);
    }
}

/// Position of the first `c` at or after `from` (or `v.len()`).
pub fn index_of_char_exec(v: &[char], c: char, from: usize) -> (r: usize)
    requires
        from <= v.len(),
    ensures
        r == index_of_char(v@, c, from as int),
        from <= r <= v.len(),
        r < v.len() ==> v@[r as int] == c,
        forall|j: int| from <= j < r ==> v@[j] != c,
{
    proof {
        lemma_index_of_char(v@, c, from as int);
    }
    let mut i = from;
    while i < v.len()
        invariant
            from <= i <= v.len(),
            index_of_char(v@, c, i as int) == index_of_char(v@, c, from as int),
            forall|j: int| from <= j < i ==> v@[j] != c,
        decreases v.len() - i,
    {
        if v[i] == c {
            return i;
        }
        i += 1;
    }
    i
}

pub open spec fn trim_start(s: Seq<char>) -> Seq<char>
    decreases s.len(),
{
    if s.len() > 0 && is_ws(s[0]) {
        trim_start(s.drop_first())
    } else {
        s
    }
}

pub open spec fn trim_end(s: Seq<char>) -> Seq<char>
    decreases s.len(),
{
    if s.len() > 0 && is_ws(s.last()) {
        trim_end(s.drop_last())
    } else {
        s
    }
}

/// `str::trim`.
pub open spec fn trim(s: Seq<char>) -> Seq<char> {
    trim_end(trim_start(s))
}

/// Index of the first non-whitespace character at or after `from`.
pub fn skip_ws(v: &[char], from: usize) -> (r: usize)
    requires
        from <= v.len(),
    ensures
        from <= r <= v.len(),
        trim_start(v@.skip(from as int)) == v@.skip(r as int),
{
    let mut i = from;
    while i < v.len() && char_is_ws(v[i])
        invariant
            from <= i <= v.len(),
            trim_start(v@.skip(from as int)) == trim_start(v@.skip(i as int)),
        decreases v.len() - i,
    {
        assert(v@.skip(i as int).drop_first() =~= v@.skip(i + 1));
        i += 1;
    }
    assert(trim_start(v@.skip(i as int)) == v@.skip(i as int)) by {
        if i < v.len() {
            assert(v@.skip(i as int)[0] == v@[i as int]);
        }
    }
    i
}

/// One past the last non-whitespace character before `to` (but not before `from`).
pub fn skip_ws_back(v: &[char], from: usize, to: usize) -> (r: usize)
    requires
        from <= to <= v.len(),
    ensures
        from <= r <= to,
        trim_end(v@.subrange(from as int, to as int)) == v@.subrange(from as int, r as int),
{
    let mut j = to;
    while j > from && char_is_ws(v[j - 1])
        invariant
            from <= j <= to,
            to <= v.len(),
            trim_end(v@.subrange(from as int, to as int)) == trim_end(
                v@.subrange(from as int, j as int),
            ),
        decreases j,
    {
        assert(v@.subrange(from as int, j as int).drop_last() =~= v@.subrange(
            from as int,
            j - 1,
        ));
        j -= 1;
    }
    assert(trim_end(v@.subrange(from as int, j as int)) == v@.subrange(from as int, j as int))
        by {
        if j > from {
            assert(v@.subrange(from as int, j as int).last() == v@[j - 1]);
        }
    }
    j
}

/// How many leading whitespace characters `trim_start` drops.
pub open spec fn trim_start_count(s: Seq<char>) -> nat
    decreases s.len(),
{
    if s.len() > 0 && is_ws(s[0]) {
        1 + trim_start_count(s.drop_first())
    } else {
        0
    }
}

/// How many trailing whitespace characters `trim_end` drops.
pub open spec fn trim_end_count(s: Seq<char>) -> nat
    decreases s.len(),
{
    if s.len() > 0 && is_ws(s.last()) {
        1 + trim_end_count(s.drop_last())
    } else {
        0
    }
}

/// Where the trimmed text sits in `s`.
pub open spec fn trim_range(s: Seq<char>) -> (int, int) {
    let a = trim_start_count(s) as int;
    let t = s.skip(a);
    (a, a + t.len() - trim_end_count(t))
}

proof fn lemma_trim_start_count(s: Seq<char>)
    ensures
        trim_start_count(s) <= s.len(),
        trim_start(s) == s.skip(trim_start_count(s) as int),
    decreases s.len(),
{
    if s.len() > 0 && is_ws(s[0]) {
        lemma_trim_start_count(s.drop_first());
        assert(s.drop_first().skip(trim_start_count(s.drop_first()) as int) =~= s.skip(trim_start_count(s) as int));
    } else {
        assert(s.skip(0) =~= s);
    }
}

proof fn lemma_trim_end_count(s: Seq<char>)
    ensures
        trim_end_count(s) <= s.len(),
        trim_end(s) == s.take(s.len() - trim_end_count(s)),
    decreases s.len(),
{
    if s.len() > 0 && is_ws(s.last()) {
        lemma_trim_end_count(s.drop_last());
        assert(s.drop_last().take(s.drop_last().len() - trim_end_count(s.drop_last())) =~= s.take(
            s.len() - trim_end_count(s),
        ));
    } else {
        assert(s.take(s.len() as int) =~= s);
    }
}

/// The trimmed text is a contiguous part of the text.
pub proof fn lemma_trim_sub(s: Seq<char>)
    ensures
        0 <= trim_range(s).0 <= trim_range(s).1 <= s.len(),
        trim(s) == s.subrange(trim_range(s).0, trim_range(s).1),
{
    lemma_trim_start_count(s);
    let a = trim_start_count(s) as int;
    let t = s.skip(a);
    lemma_trim_end_count(t);
    assert(t.take(t.len() - trim_end_count(t)) =~= s.subrange(trim_range(s).0, trim_range(s).1));
}

pub proof fn lemma_trim_start_len(s: Seq<char>)
    ensures
        trim_start(s).len() <= s.len(),
    decreases s.len(),
{
    if s.len() > 0 && is_ws(s[0]) {
        lemma_trim_start_len(s.drop_first());
    }
}

pub proof fn lemma_trim_start_skip(s: Seq<char>, k: int)
    requires
        0 <= k <= s.len(),
        forall|j: int| 0 <= j < k ==> is_ws(s[j]),
    ensures
        trim_start(s) == trim_start(s.skip(k)),
    decreases k,
{
    if k > 0 {
        assert(s.drop_first().skip(k - 1) =~= s.skip(k));
        lemma_trim_start_skip(s.drop_first(), k - 1);
    } else {
        assert(s.skip(0) =~= s);
    }
}

/// The trimmed part of `v[from..to]`, as index bounds.
pub fn trim_bounds(v: &[char], from: usize, to: usize) -> (r: (usize, usize))
    requires
        from <= to <= v.len(),
    ensures
        from <= r.0 <= r.1 <= to,
        trim(v@.subrange(from as int, to as int)) == v@.subrange(r.0 as int, r.1 as int),
{
    let mut i = from;
    while i < to && char_is_ws(v[i])
        invariant
            from <= i <= to,
            to <= v.len(),
            forall|j: int| from <= j < i ==> is_ws(v@[j]),
        decreases to - i,
    {
        i += 1;
    }
    let ghost s = v@.subrange(from as int, to as int);
    proof {
        lemma_trim_start_skip(s, i - from);
        assert(s.skip(i - from) =~= v@.subrange(i as int, to as int));
        if i < to {
            assert(v@.subrange(i as int, to as int)[0] == v@[i as int]);
        }
        assert(trim_start(s) == v@.subrange(i as int, to as int));
    }
    let j = skip_ws_back(v, i, to);
    (i, j)
}

/// `str::trim`, copied out.
pub fn trim_vec(v: &[char]) -> (r: Vec<char>)
    ensures
        r@ == trim(v@),
{
    let (a, b) = trim_bounds(v, 0, v.len());
    assert(v@.subrange(0, v@.len() as int) =~= v@);
    copy_range(v, a, b)
}

// ---------------------------------------------------------------------------------------------
// Splitting
// ---------------------------------------------------------------------------------------------

/// `str::split(c)`: the pieces between occurrences of `c` (there is always at least one).
pub open spec fn split_char(s: Seq<char>, c: char) -> Seq<Seq<char>>
    decreases s.len(),
{
    let i = index_of_char(s, c, 0);
    if i >= s.len() {
        seq![s]
    } else if i < 0 {
        seq![]
    } else {
        seq![s.take(i)] + split_char(s.skip(i + 1), c)
    }
}

/// The line at the start of `s` with its ending removed (`\n`, or `\r\n`).
pub open spec fn strip_cr(line: Seq<char>) -> Seq<char> {
    if line.len() > 0 && line.last() == '\r' {
        line.drop_last()
    } else {
        line
    }
}

/// `str::lines`: split at `\n`, dropping a `\r` right before it; a final empty line is not
/// produced.
pub open spec fn lines(s: Seq<char>) -> Seq<Seq<char>>
    decreases s.len(),
{
    if s.len() == 0 {
        seq![]
    } else {
        let i = index_of_char(s, '\n', 0);
        if i >= s.len() {
            seq![s]
        } else if i < 0 {
            seq![]
        } else {
            seq![strip_cr(s.take(i))] + lines(s.skip(i + 1))
        }
    }
}

pub proof fn lemma_index_of_char_shift(s: Seq<char>, c: char, k: int, from: int)
    requires
        0 <= k <= s.len(),
        0 <= from,
    ensures
        index_of_char(s.skip(k), c, from) == index_of_char(s, c, from + k) - k,
    decreases s.len() - k - from,
{
    if from + k >= s.len() {
    } else {
        assert(s.skip(k)[from] == s[from + k]);
        if s[from + k] != c {
            lemma_index_of_char_shift(s, c, k, from + 1);
        }
    }
}

/// Splits `v` at every `\n` into lines, as `str::lines` does.
pub fn lines_exec(v: &[char]) -> (r: Vec<Vec<char>>)
    ensures
        r@.len() == lines(v@).len(),
        forall|i: int| 0 <= i < r@.len() ==> #[trigger] r@[i]@ == lines(v@)[i],
{
    let mut r: Vec<Vec<char>> = Vec::new();
    let mut start: usize = 0;
    assert(v@.skip(0) =~= v@);
    assert(r@.map_values(|x: Vec<char>| x@) + lines(v@.skip(0)) =~= lines(v@));
    while start < v.len()
        invariant
            start <= v.len(),
            lines(v@) == r@.map_values(|x: Vec<char>| x@) + lines(v@.skip(start as int)),
        decreases v.len() - start,
    {
        let ghost rest = v@.skip(start as int);
        let i = index_of_char_exec(v, '\n', start);
        proof {
            lemma_index_of_char_shift(v@, '\n', start as int, 0);
        }
        if i >= v.len() {
            let piece = copy_range(v, start, v.len());
            proof {
                assert(piece@ =~= rest);
                assert(lines(v@.skip(v.len() as int)) =~= Seq::<Seq<char>>::empty());
                assert(r@.push(piece).map_values(|x: Vec<char>| x@) =~= r@.map_values(
                    |x: Vec<char>| x@,
                ).push(piece@));
            }
            r.push(piece);
            start = v.len();
        } else {
            let mut end = i;
            if end > start && v[end - 1] == '\r' {
                end = end - 1;
            }
            let piece = copy_range(v, start, end);
            proof {
                assert(rest.take(i - start) =~= v@.subrange(start as int, i as int));
                assert(piece@ =~= strip_cr(rest.take(i - start)));
                assert(rest.skip(i - start + 1) =~= v@.skip(i + 1));
                assert(r@.push(piece).map_values(|x: Vec<char>| x@) =~= r@.map_values(
                    |x: Vec<char>| x@,
                ).push(piece@));
                assert(lines(rest) =~= seq![piece@] + lines(v@.skip(i + 1)));
            }
            r.push(piece);
            start = i + 1;
        }
    }
    proof {
        assert(lines(v@.skip(start as int)) =~= Seq::<Seq<char>>::empty());
        assert(lines(v@) =~= r@.map_values(|x: Vec<char>| x@));
        assert forall|i: int| 0 <= i < r@.len() implies #[trigger] r@[i]@ == lines(v@)[i] by {
            assert(r@.map_values(|x: Vec<char>| x@)[i] == r@[i]@);
        }
    }
    r
}

// ---------------------------------------------------------------------------------------------
// Numbers
// ---------------------------------------------------------------------------------------------

pub open spec fn all_digits(s: Seq<char>) -> bool {
    forall|i: int| 0 <= i < s.len() ==> is_digit(#[trigger] s[i])
}

/// Decimal value of a run of ASCII digits.
pub open spec fn digits_value(s: Seq<char>) -> nat
    decreases s.len(),
{
    if s.len() == 0 {
        0
    } else {
        (digits_value(s.drop_last()) * 10 + digit_value(s.last())) as nat
    }
}

/// The magnitude part of a number: a non-empty run of digits.
pub open spec fn magnitude(s: Seq<char>) -> Option<nat> {
    if s.len() > 0 && all_digits(s) {
        Some(digits_value(s))
    } else {
        None
    }
}

/// `str::parse::<u64>()`: an optional `+`, then one or more ASCII digits, within range.
pub open spec fn parse_u64(s: Seq<char>) -> Option<u64> {
    let body = if s.len() > 0 && s[0] == '+' {
        s.drop_first()
    } else {
        s
    };
    match magnitude(body) {
        Some(n) => if n <= u64::MAX {
            Some(n as u64)
        } else {
            None
        },
        None => None,
    }
}

/// `str::parse::<i64>()`: an optional sign, then one or more ASCII digits, within range.
pub open spec fn parse_i64(s: Seq<char>) -> Option<i64> {
    let neg = s.len() > 0 && s[0] == '-';
    let body = if s.len() > 0 && (s[0] == '+' || s[0] == '-') {
        s.drop_first()
    } else {
        s
    };
    match magnitude(body) {
        Some(n) => {
            let v: int = if neg {
                -n
            } else {
                n as int
            };
            if i64::MIN <= v <= i64::MAX {
                Some(v as i64)
            } else {
                None
            }
        },
        None => None,
    }
}

proof fn lemma_digits_value_push(s: Seq<char>, c: char)
    requires
        is_digit(c),
    ensures
        digits_value(s.push(c)) == digits_value(s) * 10 + digit_value(c),
{
    assert(s.push(c).drop_last() =~= s);
}

proof fn lemma_digits_value_prefix_monotone(s: Seq<char>, k: int)
    requires
        0 <= k <= s.len(),
        all_digits(s),
    ensures
        digits_value(s.take(k)) <= digits_value(s),
    decreases s.len() - k,
{
    if k < s.len() {
        lemma_digits_value_prefix_monotone(s, k + 1);
        assert(s.take(k + 1).drop_last() =~= s.take(k));
        assert(is_digit(s[k]));
        assert(s.take(k + 1).last() == s[k]);
        assert(digits_value(s.take(k + 1)) == digits_value(s.take(k)) * 10 + digit_value(s[k]));
    } else {
        assert(s.take(k) =~= s);
    }
}

/// Parses the digits `v[from..to]` (no sign) as a number that fits in `u64`.
fn magnitude_exec(v: &[char], from: usize, to: usize) -> (r: Option<u64>)
    requires
        from <= to <= v.len(),
    ensures
        match magnitude(v@.subrange(from as int, to as int)) {
            Some(n) => if n <= u64::MAX {
                r == Some(n as u64)
            } else {
                r is None
            },
            None => r is None,
        },
{
    let ghost s = v@.subrange(from as int, to as int);
    if from == to {
        return None;
    }
    let mut acc: u64 = 0;
    let mut i = from;
    while i < to
        invariant
            from <= i <= to <= v.len(),
            s == v@.subrange(from as int, to as int),
            forall|j: int| from <= j < i ==> is_digit(v@[j]),
            acc == digits_value(v@.subrange(from as int, i as int)),
        decreases to - i,
    {
        let c = v[i];
        if !char_is_digit(c) {
            assert(!is_digit(s[i - from]));
            return None;
        }
        proof {
            lemma_digits_value_push(v@.subrange(from as int, i as int), c);
            assert(v@.subrange(from as int, i as int).push(c) =~= v@.subrange(from as int, i + 1));
        }
        let d = (c as u32 - '0' as u32) as u64;
        if acc > (u64::MAX - d) / 10 {
            proof {
                assert(forall|j: int| 0 <= j < i + 1 - from ==> is_digit(#[trigger] s[j]) || j
                    >= s.len()) by {
                    assert forall|j: int| 0 <= j < i + 1 - from implies is_digit(#[trigger] s[j]) by {
                        assert(s[j] == v@[from + j]);
                    }
                }
                assert(acc * 10 + d > u64::MAX) by (nonlinear_arith)
                    requires
                        acc > (u64::MAX - d) / 10,
                        d <= 9,
                ;
                if all_digits(s) {
                    lemma_digits_value_prefix_monotone(s, i + 1 - from);
                    assert(s.take(i + 1 - from) =~= v@.subrange(from as int, i + 1));
                }
            }
            return None;
        }
        assert(acc * 10 + d <= u64::MAX) by (nonlinear_arith)
            requires
                acc <= (u64::MAX - d) / 10,
                d <= 9,
        ;
        acc = acc * 10 + d;
        i += 1;
    }
    proof {
        assert(all_digits(s)) by {
            assert forall|j: int| 0 <= j < s.len() implies is_digit(#[trigger] s[j]) by {
                assert(s[j] == v@[from + j]);
            }
        }
    }
    Some(acc)
}

/// `str::parse::<u64>()` on `v[from..to]`.
pub fn parse_u64_exec(v: &[char], from: usize, to: usize) -> (r: Option<u64>)
    requires
        from <= to <= v.len(),
    ensures
        r == parse_u64(v@.subrange(from as int, to as int)),
{
    let ghost s = v@.subrange(from as int, to as int);
    if from < to && v[from] == '+' {
        assert(s.drop_first() =~= v@.subrange(from + 1, to as int));
        magnitude_exec(v, from + 1, to)
    } else {
        magnitude_exec(v, from, to)
    }
}

/// `str::parse::<i64>()` on `v[from..to]`.
pub fn parse_i64_exec(v: &[char], from: usize, to: usize) -> (r: Option<i64>)
    requires
        from <= to <= v.len(),
    ensures
        r == parse_i64(v@.subrange(from as int, to as int)),
{
    let ghost s = v@.subrange(from as int, to as int);
    let neg = from < to && v[from] == '-';
    let signed = from < to && (v[from] == '+' || v[from] == '-');
    let start = if signed {
        from + 1
    } else {
        from
    };
    assert(signed ==> s.drop_first() =~= v@.subrange(from + 1, to as int));
    // The magnitude of i64::MIN is one past i64::MAX, so parse it in u64 first.
    match magnitude_exec(v, start, to) {
        Some(n) => {
            if neg {
                if n <= 9223372036854775808u64 {
                    if n == 9223372036854775808u64 {
                        Some(i64::MIN)
                    } else {
                        Some(-(n as i64))
                    }
                } else {
                    None
                }
            } else if n <= 9223372036854775807u64 {
                Some(n as i64)
            } else {
                None
            }
        },
        None => {
            proof {
                let m = magnitude(v@.subrange(start as int, to as int));
                if m is Some {
                    assert(m->0 > u64::MAX);
                }
            }
            None
        },
    }
}

// ---------------------------------------------------------------------------------------------
// Decimal output
// ---------------------------------------------------------------------------------------------

pub open spec fn digit_char(d: nat) -> char {
    (('0' as u32) + d) as char
}

/// Decimal digits of `n` (no sign, no leading zeros; `0` is "0").
pub open spec fn dec_digits(n: nat) -> Seq<char>
    decreases n,
{
    if n < 10 {
        seq![digit_char(n)]
    } else {
        dec_digits(n / 10) + seq![digit_char(n % 10)]
    }
}

/// `format!("{n}")` for a signed value.
pub open spec fn dec_int(n: int) -> Seq<char> {
    if n < 0 {
        seq!['-'] + dec_digits((-n) as nat)
    } else {
        dec_digits(n as nat)
    }
}

/// `format!("{n:02}")`: zero-padded to two characters (the sign counts toward the width).
pub open spec fn dec_pad2(n: int) -> Seq<char> {
    if 0 <= n < 10 {
        seq!['0'] + dec_digits(n as nat)
    } else {
        dec_int(n)
    }
}

/// Decimal digits of `n`.
pub fn dec_digits_exec(n: u64) -> (r: Vec<char>)
    ensures
        r@ == dec_digits(n as nat),
    decreases n,
{
    if n < 10 {
        let c = ((n as u8) + 48u8) as char;
        let mut r: Vec<char> = Vec::new();
        r.push(c);
        assert(r@ =~= seq![digit_char(n as nat)]);
        r
    } else {
        let mut r = dec_digits_exec(n / 10);
        let d = n % 10;
        let c = ((d as u8) + 48u8) as char;
        r.push(c);
        r
    }
}

/// `format!("{n}")` for a signed value, given as sign and magnitude.
pub fn dec_signed_exec(neg: bool, mag: u64) -> (r: Vec<char>)
    ensures
        r@ == dec_int(if neg { -(mag as int) } else { mag as int }),
{
    let d = dec_digits_exec(mag);
    if neg && mag > 0 {
        let mut r: Vec<char> = Vec::new();
        r.push('-');
        append_chars(&mut r, &d);
        assert(r@ =~= seq!['-'] + d@);
        r
    } else {
        d
    }
}

/// `format!("{n:02}")`, given as sign and magnitude.
pub fn dec_pad2_exec(neg: bool, mag: u64) -> (r: Vec<char>)
    ensures
        r@ == dec_pad2(if neg { -(mag as int) } else { mag as int }),
{
    if (!neg || mag == 0) && mag < 10 {
        let d = dec_digits_exec(mag);
        let mut r: Vec<char> = Vec::new();
        r.push('0');
        append_chars(&mut r, &d);
        assert(r@ =~= seq!['0'] + d@);
        r
    } else {
        dec_signed_exec(neg, mag)
    }
}

} // verus!

//! Sequence and string helpers shared by the argument, command and request
//! parsers: prefix tests, repeated trimming of one character, whitespace
//! trimming and splitting on a separator.
use vstd::prelude::*;

verus! {

/// `s` with every leading occurrence of `c` removed (what `trim_start_matches`
/// does with a one-character pattern).
pub open spec fn strip_leading<A>(s: Seq<A>, c: A) -> Seq<A>
    decreases s.len(),
{
    if s.len() > 0 && s[0] == c {
        strip_leading(s.drop_first(), c)
    } else {
        s
    }
}

/// `s` with every trailing occurrence of `c` removed (what `trim_end_matches`
/// does with a one-character pattern).
pub open spec fn strip_trailing<A>(s: Seq<A>, c: A) -> Seq<A>
    decreases s.len(),
{
    if s.len() > 0 && s.last() == c {
        strip_trailing(s.drop_last(), c)
    } else {
        s
    }
}

/// `p` is a prefix of `s`.
pub open spec fn has_prefix<A>(s: Seq<A>, p: Seq<A>) -> bool {
    p.len() <= s.len() && s.subrange(0, p.len() as int) == p
}

/// The fields of `s` separated by `c`, as `split(c)` yields them: one field
/// more than there are separators, empty fields included.
pub open spec fn split_all<A>(s: Seq<A>, c: A) -> Seq<Seq<A>>
    decreases s.len(),
{
    if s.len() == 0 {
        seq![Seq::empty()]
    } else {
        let fields = split_all(s.drop_last(), c);
        if s.last() == c {
            fields.push(Seq::empty())
        } else {
            fields.update(fields.len() - 1, fields.last().push(s.last()))
        }
    }
}

/// The characters that Unicode gives the White_Space property, which
/// `char::is_whitespace` tests and `str::trim` removes.
pub open spec fn is_whitespace(c: char) -> bool {
    let u = c as u32;
    ||| 9 <= u <= 13
    ||| u == 0x20
    ||| u == 0x85
    ||| u == 0xA0
    ||| u == 0x1680
    ||| 0x2000 <= u <= 0x200A
    ||| u == 0x2028
    ||| u == 0x2029
    ||| u == 0x202F
    ||| u == 0x205F
    ||| u == 0x3000
}

/// `s` without its leading whitespace.
pub open spec fn trim_start_ws(s: Seq<char>) -> Seq<char>
    decreases s.len(),
{
    if s.len() > 0 && is_whitespace(s[0]) {
        trim_start_ws(s.drop_first())
    } else {
        s
    }
}

/// `s` without its trailing whitespace.
pub open spec fn trim_end_ws(s: Seq<char>) -> Seq<char>
    decreases s.len(),
{
    if s.len() > 0 && is_whitespace(s.last()) {
        trim_end_ws(s.drop_last())
    } else {
        s
    }
}

/// `s` without leading and trailing whitespace (what `str::trim` returns).
pub open spec fn trim_ws(s: Seq<char>) -> Seq<char> {
    trim_end_ws(trim_start_ws(s))
}

/// The views of a vector of strings.
pub open spec fn string_views(v: Seq<String>) -> Seq<Seq<char>> {
    v.map_values(|s: String| s@)
}

/// The views of a vector of byte vectors.
pub open spec fn byte_views(v: Seq<Vec<u8>>) -> Seq<Seq<u8>> {
    v.map_values(|b: Vec<u8>| b@)
}

/// The bytes of a text made of ASCII characters.
pub open spec fn ascii(s: Seq<char>) -> Seq<u8> {
    s.map_values(|c: char| c as u8)
}

/// Splitting never yields an empty list of fields.
pub proof fn lemma_split_all_nonempty<A>(s: Seq<A>, c: A)
    ensures
        split_all(s, c).len() >= 1,
    decreases s.len(),
{
    if s.len() > 0 {
        lemma_split_all_nonempty(s.drop_last(), c);
    }
}

/// A text without the separator is a single field.
pub proof fn lemma_split_all_no_separator<A>(s: Seq<A>, c: A)
    requires
        forall|k: int| 0 <= k < s.len() ==> s[k] != c,
    ensures
        split_all(s, c) == seq![s],
    decreases s.len(),
{
    if s.len() > 0 {
        assert forall|k: int| 0 <= k < s.drop_last().len() implies s.drop_last()[k] != c by {
            assert(s.drop_last()[k] == s[k]);
        }
        lemma_split_all_no_separator(s.drop_last(), c);
        assert(s[s.len() - 1] != c);
        assert(s.drop_last().push(s.last()) =~= s);
        assert(seq![s.drop_last()].update(0, s.drop_last().push(s.last())) =~= seq![s]);
    } else {
        assert(s =~= Seq::<A>::empty());
    }
}

/// The fields of `a`, the separator, then `b` are the fields of `a` followed
/// by the fields of `b`.
pub proof fn lemma_split_all_concat<A>(a: Seq<A>, b: Seq<A>, c: A)
    ensures
        split_all(a + seq![c] + b, c) == split_all(a, c) + split_all(b, c),
    decreases b.len(),
{
    let s = a + seq![c] + b;
    lemma_split_all_nonempty(a, c);
    if b.len() == 0 {
        assert(s.drop_last() =~= a);
        assert(split_all(a, c).push(Seq::empty()) =~= split_all(a, c) + split_all(b, c));
    } else {
        lemma_split_all_concat(a, b.drop_last(), c);
        lemma_split_all_nonempty(b.drop_last(), c);
        assert(s.drop_last() =~= a + seq![c] + b.drop_last());
        assert(s.last() == b.last());
        let fa = split_all(a, c);
        let fb = split_all(b.drop_last(), c);
        if b.last() == c {
            assert((fa + fb).push(Seq::empty()) =~= fa + fb.push(Seq::empty()));
        } else {
            assert((fa + fb).update(
                (fa + fb).len() - 1,
                (fa + fb).last().push(b.last()),
            ) =~= fa + fb.update(fb.len() - 1, fb.last().push(b.last())));
        }
    }
}

/// The first occurrence of `c` in `s`, or the length of `s` when there is
/// none.
pub proof fn lemma_first_occurrence<A>(s: Seq<A>, c: A) -> (i: int)
    ensures
        0 <= i <= s.len(),
        i < s.len() ==> s[i] == c,
        forall|k: int| 0 <= k < i ==> s[k] != c,
    decreases s.len(),
{
    if s.len() == 0 || s[0] == c {
        0
    } else {
        let r = lemma_first_occurrence(s.drop_first(), c);
        assert forall|k: int| 0 <= k < r + 1 implies s[k] != c by {
            if k > 0 {
                assert(s[k] == s.drop_first()[k - 1]);
            }
        }
        r + 1
    }
}

/// Stripping the leading `c` drops the run of `c` at the front and nothing
/// else.
pub proof fn lemma_strip_leading_is_skip<A>(s: Seq<A>, c: A) -> (m: int)
    ensures
        0 <= m <= s.len(),
        strip_leading(s, c) == s.skip(m),
        forall|k: int| 0 <= k < m ==> s[k] == c,
        m == s.len() || s[m] != c,
    decreases s.len(),
{
    if s.len() > 0 && s[0] == c {
        let r = lemma_strip_leading_is_skip(s.drop_first(), c);
        assert(s.drop_first().skip(r) =~= s.skip(r + 1));
        assert forall|k: int| 0 <= k < r + 1 implies s[k] == c by {
            if k > 0 {
                assert(s[k] == s.drop_first()[k - 1]);
            }
        }
        r + 1
    } else {
        assert(s.skip(0) =~= s);
        0
    }
}

/// Stripping the trailing `c` drops the run of `c` at the end and nothing
/// else.
pub proof fn lemma_strip_trailing_is_take<A>(s: Seq<A>, c: A) -> (m: int)
    ensures
        0 <= m <= s.len(),
        strip_trailing(s, c) == s.take(m),
        forall|k: int| m <= k < s.len() ==> s[k] == c,
        m == 0 || s[m - 1] != c,
    decreases s.len(),
{
    if s.len() > 0 && s.last() == c {
        let r = lemma_strip_trailing_is_take(s.drop_last(), c);
        assert(s.drop_last().take(r) =~= s.take(r));
        assert forall|k: int| r <= k < s.len() implies s[k] == c by {
            if k < s.len() - 1 {
                assert(s[k] == s.drop_last()[k]);
            }
        }
        r
    } else {
        assert(s.take(s.len() as int) =~= s);
        s.len() as int
    }
}

/// Removing the leading occurrences of `c` twice removes nothing more, and
/// what is left does not start with `c`.
pub proof fn lemma_strip_leading_idempotent<A>(s: Seq<A>, c: A)
    ensures
        strip_leading(strip_leading(s, c), c) == strip_leading(s, c),
        strip_leading(s, c).len() == 0 || strip_leading(s, c)[0] != c,
    decreases s.len(),
{
    if s.len() > 0 && s[0] == c {
        lemma_strip_leading_idempotent(s.drop_first(), c);
    }
}

/// Removing the trailing occurrences of `c` twice removes nothing more, and
/// what is left does not end with `c`.
pub proof fn lemma_strip_trailing_idempotent<A>(s: Seq<A>, c: A)
    ensures
        strip_trailing(strip_trailing(s, c), c) == strip_trailing(s, c),
        strip_trailing(s, c).len() == 0 || strip_trailing(s, c).last() != c,
    decreases s.len(),
{
    if s.len() > 0 && s.last() == c {
        lemma_strip_trailing_idempotent(s.drop_last(), c);
    }
}

/// Whether two strings hold the same characters.
pub fn str_eq(a: &str, b: &str) -> (r: bool)
    ensures
        r == (a@ == b@),
{
    let n = a.unicode_len();
    if n != b.unicode_len() {
        return false;
    }
    let mut i: usize = 0;
    while i < n
        invariant
            n == a@.len(),
            n == b@.len(),
            i <= n,
            forall|j: int| 0 <= j < i ==> a@[j] == b@[j],
        decreases n - i,
    {
        if a.get_char(i) != b.get_char(i) {
            return false;
        }
        i += 1;
    }
    assert(a@ =~= b@);
    true
}

/// Whether `s` starts with `p`.
pub fn str_starts_with(s: &str, p: &str) -> (r: bool)
    ensures
        r == has_prefix(s@, p@),
{
    let n = p.unicode_len();
    if n > s.unicode_len() {
        return false;
    }
    let mut i: usize = 0;
    while i < n
        invariant
            n == p@.len(),
            n <= s@.len(),
            i <= n,
            forall|j: int| 0 <= j < i ==> s@[j] == p@[j],
        decreases n - i,
    {
        if s.get_char(i) != p.get_char(i) {
            assert(s@.subrange(0, n as int)[i as int] != p@[i as int]);
            return false;
        }
        i += 1;
    }
    assert(s@.subrange(0, n as int) =~= p@);
    true
}

/// `s` with every leading `c` removed.
pub fn trim_start_char(s: &str, c: char) -> (r: String)
    ensures
        r@ == strip_leading(s@, c),
{
    let n = s.unicode_len();
    let mut i: usize = 0;
    assert(s@.skip(0) =~= s@);
    while i < n && s.get_char(i) == c
        invariant
            n == s@.len(),
            i <= n,
            strip_leading(s@.skip(i as int), c) == strip_leading(s@, c),
        decreases n - i,
    {
        assert(s@.skip(i as int).drop_first() =~= s@.skip(i + 1));
        i += 1;
    }
    let rest = s.substring_char(i, n);
    assert(rest@ =~= s@.skip(i as int));
    String::from_str(rest)
}

/// `s` with every trailing `c` removed.
pub fn trim_end_char(s: &str, c: char) -> (r: String)
    ensures
        r@ == strip_trailing(s@, c),
{
    let n = s.unicode_len();
    let mut j: usize = n;
    assert(s@.take(n as int) =~= s@);
    while j > 0 && s.get_char(j - 1) == c
        invariant
            n == s@.len(),
            j <= n,
            strip_trailing(s@.take(j as int), c) == strip_trailing(s@, c),
        decreases j,
    {
        assert(s@.take(j as int).drop_last() =~= s@.take(j - 1));
        j -= 1;
    }
    assert(s@.take(n as int) =~= s@);
    let rest = s.substring_char(0, j);
    assert(rest@ =~= s@.take(j as int));
    String::from_str(rest)
}

/// Whether `c` is whitespace in the sense of `char::is_whitespace`.
pub fn char_is_whitespace(c: char) -> (r: bool)
    ensures
        r == is_whitespace(c),
{
    let u = c as u32;
    (9 <= u && u <= 13) || u == 0x20 || u == 0x85 || u == 0xA0 || u == 0x1680 || (0x2000 <= u
        && u <= 0x200A) || u == 0x2028 || u == 0x2029 || u == 0x202F || u == 0x205F || u == 0x3000
}

/// `s` without leading and trailing whitespace.
pub fn trim_whitespace(s: &str) -> (r: String)
    ensures
        r@ == trim_ws(s@),
{
    let n = s.unicode_len();
    let mut i: usize = 0;
    assert(s@.skip(0) =~= s@);
    while i < n && char_is_whitespace(s.get_char(i))
        invariant
            n == s@.len(),
            i <= n,
            trim_start_ws(s@.skip(i as int)) == trim_start_ws(s@),
        decreases n - i,
    {
        assert(s@.skip(i as int).drop_first() =~= s@.skip(i + 1));
        i += 1;
    }
    let ghost front = s@.skip(i as int);
    assert(trim_start_ws(s@) == front);
    let mut j: usize = n;
    while j > i && char_is_whitespace(s.get_char(j - 1))
        invariant
            n == s@.len(),
            i <= j <= n,
            front == s@.skip(i as int),
            trim_end_ws(s@.subrange(i as int, j as int)) == trim_end_ws(front),
        decreases j,
    {
        assert(s@.subrange(i as int, j as int).drop_last() =~= s@.subrange(i as int, j - 1));
        j -= 1;
    }
    let rest = s.substring_char(i, j);
    proof {
        assert(s@.subrange(i as int, n as int) =~= front);
        let mid = s@.subrange(i as int, j as int);
        if mid.len() > 0 {
            assert(mid.last() == s@[j - 1]);
        }
        assert(trim_end_ws(mid) == mid);
    }
    String::from_str(rest)
}

/// The fields of `s` separated by `c`, as `s.split(c)` yields them.
pub fn split_str(s: &str, c: char) -> (r: Vec<String>)
    ensures
        string_views(r@) == split_all(s@, c),
{
    let n = s.unicode_len();
    let mut fields: Vec<String> = Vec::new();
    let mut start: usize = 0;
    let mut i: usize = 0;
    assert(s@.take(0) =~= Seq::<char>::empty());
    assert(string_views(fields@) + seq![s@.subrange(0, 0)] =~= split_all(s@.take(0), c));
    while i < n
        invariant
            n == s@.len(),
            start <= i <= n,
            string_views(fields@) + seq![s@.subrange(start as int, i as int)] == split_all(
                s@.take(i as int),
                c,
            ),
        decreases n - i,
    {
        let ch = s.get_char(i);
        let ghost prev = split_all(s@.take(i as int), c);
        assert(s@.take(i + 1).drop_last() =~= s@.take(i as int));
        assert(s@.take(i + 1).last() == ch);
        if ch == c {
            let piece = s.substring_char(start, i);
            let field = String::from_str(piece);
            let ghost before = fields@;
            fields.push(field);
            assert(string_views(fields@) =~= string_views(before).push(field@));
            start = i + 1;
            assert(s@.subrange(start as int, i + 1) =~= Seq::<char>::empty());
            assert(string_views(fields@) + seq![s@.subrange(start as int, i + 1)] =~= prev.push(
                Seq::empty(),
            ));
        } else {
            assert(s@.subrange(start as int, i + 1) =~= s@.subrange(start as int, i as int).push(
                ch,
            ));
            assert(string_views(fields@) + seq![s@.subrange(start as int, i + 1)] =~= prev.update(
                prev.len() - 1,
                prev.last().push(ch),
            ));
        }
        i += 1;
    }
    let last = s.substring_char(start, n);
    let field = String::from_str(last);
    let ghost before = fields@;
    fields.push(field);
    assert(s@.take(n as int) =~= s@);
    assert(string_views(fields@) =~= string_views(before) + seq![s@.subrange(start as int, n as int)]);
    fields
}


/// Whether `s` starts with the bytes `p`.
pub fn bytes_start_with(s: &[u8], p: &[u8]) -> (r: bool)
    ensures
        r == has_prefix(s@, p@),
{
    let n = p.len();
    if n > s.len() {
        return false;
    }
    let mut i: usize = 0;
    while i < n
        invariant
            n == p@.len(),
            n <= s@.len(),
            i <= n,
            forall|j: int| 0 <= j < i ==> s@[j] == p@[j],
        decreases n - i,
    {
        if s[i] != p[i] {
            assert(s@.subrange(0, n as int)[i as int] != p@[i as int]);
            return false;
        }
        i += 1;
    }
    assert(s@.subrange(0, n as int) =~= p@);
    true
}

/// The bytes of `s` from `from` up to `to`.
pub fn byte_range(s: &[u8], from: usize, to: usize) -> (r: Vec<u8>)
    requires
        from <= to <= s@.len(),
    ensures
        r@ == s@.subrange(from as int, to as int),
{
    let mut out: Vec<u8> = Vec::new();
    let mut i: usize = from;
    while i < to
        invariant
            from <= i <= to <= s@.len(),
            out@ == s@.subrange(from as int, i as int),
        decreases to - i,
    {
        out.push(s[i]);
        i += 1;
        assert(out@ =~= s@.subrange(from as int, i as int));
    }
    out
}

/// The fields of `s` separated by the byte `c`.
pub fn split_bytes(s: &[u8], c: u8) -> (r: Vec<Vec<u8>>)
    ensures
        byte_views(r@) == split_all(s@, c),
{
    let n = s.len();
    let mut fields: Vec<Vec<u8>> = Vec::new();
    let mut start: usize = 0;
    let mut i: usize = 0;
    assert(s@.take(0) =~= Seq::<u8>::empty());
    assert(byte_views(fields@) + seq![s@.subrange(0, 0)] =~= split_all(s@.take(0), c));
    while i < n
        invariant
            n == s@.len(),
            start <= i <= n,
            byte_views(fields@) + seq![s@.subrange(start as int, i as int)] == split_all(
                s@.take(i as int),
                c,
            ),
        decreases n - i,
    {
        let b = s[i];
        let ghost prev = split_all(s@.take(i as int), c);
        assert(s@.take(i + 1).drop_last() =~= s@.take(i as int));
        assert(s@.take(i + 1).last() == b);
        if b == c {
            let field = byte_range(s, start, i);
            let ghost before = fields@;
            fields.push(field);
            assert(byte_views(fields@) =~= byte_views(before).push(field@));
            start = i + 1;
            assert(s@.subrange(start as int, i + 1) =~= Seq::<u8>::empty());
            assert(byte_views(fields@) + seq![s@.subrange(start as int, i + 1)] =~= prev.push(
                Seq::empty(),
            ));
        } else {
            assert(s@.subrange(start as int, i + 1) =~= s@.subrange(start as int, i as int).push(
                b,
            ));
            assert(byte_views(fields@) + seq![s@.subrange(start as int, i + 1)] =~= prev.update(
                prev.len() - 1,
                prev.last().push(b),
            ));
        }
        i += 1;
    }
    let field = byte_range(s, start, n);
    let ghost before = fields@;
    fields.push(field);
    assert(s@.take(n as int) =~= s@);
    assert(byte_views(fields@) =~= byte_views(before) + seq![s@.subrange(start as int, n as int)]);
    fields
}

/// `s` with every leading byte `c` removed.
pub fn trim_start_byte(s: &[u8], c: u8) -> (r: Vec<u8>)
    ensures
        r@ == strip_leading(s@, c),
{
    let n = s.len();
    let mut i: usize = 0;
    assert(s@.skip(0) =~= s@);
    while i < n && s[i] == c
        invariant
            n == s@.len(),
            i <= n,
            strip_leading(s@.skip(i as int), c) == strip_leading(s@, c),
        decreases n - i,
    {
        assert(s@.skip(i as int).drop_first() =~= s@.skip(i + 1));
        i += 1;
    }
    let r = byte_range(s, i, n);
    assert(r@ =~= s@.skip(i as int));
    r
}

} // verus!

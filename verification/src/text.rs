use vstd::prelude::*;

verus! {

/// Appends one character to a string.
///
/// Trusted: `String::push` adds `c` at the end of the string and changes
/// nothing else.
#[verifier::external_body]
pub(crate) fn push_char(s: &mut String, c: char)
    ensures
        final(s)@ == old(s)@.push(c),
{
    s.push(c);
}

/// The characters of `s`, in order.
pub fn chars_of(s: &str) -> (v: Vec<char>)
    ensures
        v@ == s@,
{
    let mut v: Vec<char> = Vec::new();
    for c in it: s.chars()
        invariant
            v@ == it.seq().take(it.index() as int),
            it.seq() == s@,
    {
        v.push(c);
    }
    v
}

/// Appends every character of `t` to `s`.
pub fn push_str(s: &mut String, t: &str)
    ensures
        final(s)@ == old(s)@ + t@,
{
    let ghost start = s@;
    for c in it: t.chars()
        invariant
            s@ == start + it.seq().take(it.index() as int),
            it.seq() == t@,
    {
        push_char(s, c);
        proof {
            assert(start + it.seq().take(it.index() + 1) =~= (start + it.seq().take(
                it.index() as int,
            )).push(c));
        }
    }
}

/// Appends the characters of `v` to `s`.
pub fn push_chars(s: &mut String, v: &[char])
    ensures
        final(s)@ == old(s)@ + v@,
{
    let ghost start = s@;
    let mut i: usize = 0;
    while i < v.len()
        invariant
            0 <= i <= v@.len(),
            s@ == start + v@.take(i as int),
        decreases v@.len() - i,
    {
        push_char(s, v[i]);
        assert(start + v@.take(i + 1) =~= (start + v@.take(i as int)).push(v@[i as int]));
        i = i + 1;
    }
    assert(v@.take(v@.len() as int) =~= v@);
}

/// A string holding exactly the characters of `v`.
pub fn string_from_chars(v: &[char]) -> (s: String)
    ensures
        s@ == v@,
{
    let mut s = String::new();
    push_chars(&mut s, v);
    assert(Seq::<char>::empty() + v@ =~= v@);
    s
}

/// A copy of `s`.
pub fn copy_str(s: &str) -> (r: String)
    ensures
        r@ == s@,
{
    let mut r = String::new();
    push_str(&mut r, s);
    assert(Seq::<char>::empty() + s@ =~= s@);
    r
}

/// A copy of each string in `v`.
pub fn copy_strings(v: &Vec<String>) -> (r: Vec<String>)
    ensures
        r.deep_view() == v.deep_view(),
{
    let mut r: Vec<String> = Vec::new();
    let mut i: usize = 0;
    while i < v.len()
        invariant
            0 <= i <= v@.len(),
            r@.len() == i,
            forall|j: int| 0 <= j < i ==> #[trigger] r@[j]@ == v@[j]@,
        decreases v@.len() - i,
    {
        r.push(copy_str(v[i].as_str()));
        i = i + 1;
    }
    assert(r.deep_view() =~= v.deep_view());
    r
}

/// Whether two character sequences are equal.
pub fn chars_equal(x: &[char], y: &[char]) -> (r: bool)
    ensures
        r == (x@ == y@),
{
    if x.len() != y.len() {
        return false;
    }
    let mut i: usize = 0;
    while i < x.len()
        invariant
            0 <= i <= x@.len(),
            x@.len() == y@.len(),
            forall|j: int| 0 <= j < i ==> x@[j] == y@[j],
        decreases x@.len() - i,
    {
        if x[i] != y[i] {
            return false;
        }
        i = i + 1;
    }
    assert(x@ =~= y@);
    true
}

/// Whether two strings hold the same characters.
pub fn str_eq(a: &str, b: &str) -> (r: bool)
    ensures
        r == (a@ == b@),
{
    let x = chars_of(a);
    let y = chars_of(b);
    chars_equal(x.as_slice(), y.as_slice())
}

/// A Unicode control character (general category `Cc`): U+0000 to U+001F
/// and U+007F to U+009F.
pub open spec fn is_control(c: char) -> bool {
    (c as u32) <= 0x1f || (0x7f <= (c as u32) && (c as u32) <= 0x9f)
}

/// Whether `c` is a control character.
pub fn char_is_control(c: char) -> (r: bool)
    ensures
        r == is_control(c),
{
    let n = c as u32;
    n <= 0x1f || (0x7f <= n && n <= 0x9f)
}

/// An ASCII hexadecimal digit: `0-9`, `a-f` or `A-F`.
pub open spec fn is_hex_digit(c: char) -> bool {
    ('0' <= c && c <= '9') || ('a' <= c && c <= 'f') || ('A' <= c && c <= 'F')
}

/// Whether `c` is an ASCII hexadecimal digit.
pub fn char_is_hex_digit(c: char) -> (r: bool)
    ensures
        r == is_hex_digit(c),
{
    ('0' <= c && c <= '9') || ('a' <= c && c <= 'f') || ('A' <= c && c <= 'F')
}

/// `c` with an ASCII upper-case letter turned into lower case.
pub open spec fn ascii_lower(c: char) -> char {
    if 'A' <= c && c <= 'Z' {
        ((c as u32) + 32) as char
    } else {
        c
    }
}

/// Equality of two strings when ASCII letters are compared without regard
/// to case; every other character must match exactly.
pub open spec fn eq_ignore_ascii_case(a: Seq<char>, b: Seq<char>) -> bool {
    a.len() == b.len() && forall|i: int| 0 <= i < a.len() ==> ascii_lower(a[i]) == ascii_lower(
        b[i],
    )
}

fn lower_char(c: char) -> (r: char)
    ensures
        r == ascii_lower(c),
{
    if 'A' <= c && c <= 'Z' {
        let n: u32 = (c as u32) + 32;
        assert(n <= 0x7f);
        char_from_ascii(n)
    } else {
        c
    }
}

fn char_from_ascii(n: u32) -> (r: char)
    requires
        n <= 0x7f,
    ensures
        r == n as char,
{
    let b: u8 = n as u8;
    b as char
}

/// Whether `a` and `b` are equal when ASCII letters are compared without
/// regard to case.
pub fn str_eq_ignore_ascii_case(a: &str, b: &str) -> (r: bool)
    ensures
        r == eq_ignore_ascii_case(a@, b@),
{
    let x = chars_of(a);
    let y = chars_of(b);
    if x.len() != y.len() {
        return false;
    }
    let mut i: usize = 0;
    while i < x.len()
        invariant
            0 <= i <= x@.len(),
            x@.len() == y@.len(),
            x@ == a@,
            y@ == b@,
            forall|j: int| 0 <= j < i ==> ascii_lower(x@[j]) == ascii_lower(y@[j]),
        decreases x@.len() - i,
    {
        if lower_char(x[i]) != lower_char(y[i]) {
            return false;
        }
        i = i + 1;
    }
    true
}

/// Lexicographic order on strings, character by character.
///
/// Because UTF-8 keeps the order of code points, this is the order in which
/// `String`'s `Ord` puts strings.
pub open spec fn lex_less(a: Seq<char>, b: Seq<char>) -> bool
    decreases a.len(),
{
    if a.len() == 0 {
        b.len() > 0
    } else if b.len() == 0 {
        false
    } else if a[0] != b[0] {
        (a[0] as int) < (b[0] as int)
    } else {
        lex_less(a.drop_first(), b.drop_first())
    }
}

/// `lex_less` is irreflexive.
pub proof fn lemma_lex_less_irreflexive(a: Seq<char>)
    ensures
        !lex_less(a, a),
    decreases a.len(),
{
    if a.len() > 0 {
        lemma_lex_less_irreflexive(a.drop_first());
    }
}

/// `lex_less` is transitive.
pub proof fn lemma_lex_less_transitive(a: Seq<char>, b: Seq<char>, c: Seq<char>)
    requires
        lex_less(a, b),
        lex_less(b, c),
    ensures
        lex_less(a, c),
    decreases a.len(),
{
    if a.len() > 0 && b.len() > 0 && c.len() > 0 {
        if a[0] == b[0] && b[0] == c[0] {
            lemma_lex_less_transitive(a.drop_first(), b.drop_first(), c.drop_first());
        }
    }
}

/// Any two different strings are ordered one way or the other.
pub proof fn lemma_lex_less_total(a: Seq<char>, b: Seq<char>)
    ensures
        a == b || lex_less(a, b) || lex_less(b, a),
    decreases a.len(),
{
    if a.len() > 0 && b.len() > 0 && a[0] != b[0] {
        assert((a[0] as int) != (b[0] as int));
    } else if a.len() > 0 && b.len() > 0 && a[0] == b[0] {
        lemma_lex_less_total(a.drop_first(), b.drop_first());
        if a.drop_first() == b.drop_first() {
            assert(a =~= seq![a[0]] + a.drop_first());
            assert(b =~= seq![b[0]] + b.drop_first());
        }
    } else if a.len() == 0 && b.len() == 0 {
        assert(a =~= b);
    }
}

/// Whether `a` comes before `b` in lexicographic order.
pub fn str_lex_less(a: &str, b: &str) -> (r: bool)
    ensures
        r == lex_less(a@, b@),
{
    let x = chars_of(a);
    let y = chars_of(b);
    let mut i: usize = 0;
    assert(x@.skip(0) =~= x@);
    assert(y@.skip(0) =~= y@);
    while i < x.len() && i < y.len()
        invariant
            0 <= i <= x@.len(),
            i <= y@.len(),
            x@ == a@,
            y@ == b@,
            forall|j: int| 0 <= j < i ==> x@[j] == y@[j],
            lex_less(a@, b@) == lex_less(x@.skip(i as int), y@.skip(i as int)),
        decreases x@.len() - i,
    {
        if x[i] != y[i] {
            return x[i] < y[i];
        }
        assert(x@.skip(i as int).drop_first() =~= x@.skip(i + 1));
        assert(y@.skip(i as int).drop_first() =~= y@.skip(i + 1));
        i = i + 1;
    }
    i < y.len()
}

/// The decimal digit `d` (0 to 9) as a character.
pub open spec fn digit_char(d: nat) -> char {
    if d == 0 {
        '0'
    } else if d == 1 {
        '1'
    } else if d == 2 {
        '2'
    } else if d == 3 {
        '3'
    } else if d == 4 {
        '4'
    } else if d == 5 {
        '5'
    } else if d == 6 {
        '6'
    } else if d == 7 {
        '7'
    } else if d == 8 {
        '8'
    } else {
        '9'
    }
}

/// The decimal notation of `n`, without sign or leading zeros.
pub open spec fn decimal(n: nat) -> Seq<char>
    decreases n,
{
    if n < 10 {
        seq![digit_char(n)]
    } else {
        decimal(n / 10).push(digit_char(n % 10))
    }
}

fn digit(d: u64) -> (c: char)
    requires
        d < 10,
    ensures
        c == digit_char(d as nat),
{
    if d == 0 {
        '0'
    } else if d == 1 {
        '1'
    } else if d == 2 {
        '2'
    } else if d == 3 {
        '3'
    } else if d == 4 {
        '4'
    } else if d == 5 {
        '5'
    } else if d == 6 {
        '6'
    } else if d == 7 {
        '7'
    } else if d == 8 {
        '8'
    } else {
        '9'
    }
}

fn decimal_chars(n: u64) -> (v: Vec<char>)
    ensures
        v@ == decimal(n as nat),
    decreases n,
{
    if n < 10 {
        let mut v = Vec::new();
        v.push(digit(n));
        assert(v@ =~= seq![digit_char(n as nat)]);
        v
    } else {
        let mut v = decimal_chars(n / 10);
        v.push(digit(n % 10));
        v
    }
}

/// The decimal notation of `n`, as `n.to_string()` writes it.
pub fn u64_to_decimal(n: u64) -> (s: String)
    ensures
        s@ == decimal(n as nat),
{
    let v = decimal_chars(n);
    string_from_chars(v.as_slice())
}

/// The lower-case hexadecimal digit for `d` (0 to 15).
pub open spec fn hex_char(d: nat) -> char {
    if d < 10 {
        digit_char(d)
    } else if d == 10 {
        'a'
    } else if d == 11 {
        'b'
    } else if d == 12 {
        'c'
    } else if d == 13 {
        'd'
    } else if d == 14 {
        'e'
    } else {
        'f'
    }
}

/// Lower-case hexadecimal notation of `bytes`: two digits per byte, high
/// nibble first.
pub open spec fn hex_lower(bytes: Seq<u8>) -> Seq<char>
    decreases bytes.len(),
{
    if bytes.len() == 0 {
        Seq::empty()
    } else {
        let b = bytes.last();
        hex_lower(bytes.drop_last()).push(hex_char((b / 16) as nat)).push(
            hex_char((b % 16) as nat),
        )
    }
}

fn hex_digit(d: u8) -> (c: char)
    requires
        d < 16,
    ensures
        c == hex_char(d as nat),
{
    if d < 10 {
        digit(d as u64)
    } else if d == 10 {
        'a'
    } else if d == 11 {
        'b'
    } else if d == 12 {
        'c'
    } else if d == 13 {
        'd'
    } else if d == 14 {
        'e'
    } else {
        'f'
    }
}

/// Lower-case hexadecimal notation of `bytes`.
pub fn to_hex_lower(bytes: &[u8]) -> (s: String)
    ensures
        s@ == hex_lower(bytes@),
        s@.len() == 2 * bytes@.len(),
{
    let mut v: Vec<char> = Vec::new();
    let mut i: usize = 0;
    while i < bytes.len()
        invariant
            0 <= i <= bytes@.len(),
            v@ == hex_lower(bytes@.take(i as int)),
            v@.len() == 2 * i,
        decreases bytes@.len() - i,
    {
        let b = bytes[i];
        v.push(hex_digit(b / 16));
        v.push(hex_digit(b % 16));
        assert(bytes@.take(i + 1).drop_last() =~= bytes@.take(i as int));
        i = i + 1;
    }
    assert(bytes@.take(bytes@.len() as int) =~= bytes@);
    string_from_chars(v.as_slice())
}

/// `s` with every occurrence of `pat`, found left to right without
/// overlap, replaced by `rep` (as `str::replace` does for a non-empty
/// pattern).
pub open spec fn replace_all(s: Seq<char>, pat: Seq<char>, rep: Seq<char>) -> Seq<char>
    recommends
        pat.len() > 0,
    decreases s.len(),
{
    if pat.len() == 0 || s.len() < pat.len() {
        s
    } else if s.take(pat.len() as int) == pat {
        rep + replace_all(s.skip(pat.len() as int), pat, rep)
    } else {
        seq![s[0]] + replace_all(s.skip(1), pat, rep)
    }
}

fn matches_at(s: &Vec<char>, i: usize, pat: &Vec<char>) -> (r: bool)
    requires
        i + pat@.len() <= s@.len(),
    ensures
        r == (s@.skip(i as int).take(pat@.len() as int) == pat@),
{
    let n = s.len();
    let mut j: usize = 0;
    while j < pat.len()
        invariant
            0 <= j <= pat@.len(),
            n == s@.len(),
            i + pat@.len() <= s@.len(),
            forall|k: int| 0 <= k < j ==> s@[i + k] == pat@[k],
        decreases pat@.len() - j,
    {
        if s[i + j] != pat[j] {
            assert(s@.skip(i as int).take(pat@.len() as int)[j as int] != pat@[j as int]);
            return false;
        }
        j = j + 1;
    }
    assert(s@.skip(i as int).take(pat@.len() as int) =~= pat@);
    true
}

/// Appends the characters of `v` from `start` up to `end` to `out`.
pub fn extend_chars(out: &mut Vec<char>, v: &Vec<char>, start: usize, end: usize)
    requires
        start <= end <= v@.len(),
    ensures
        final(out)@ == old(out)@ + v@.subrange(start as int, end as int),
{
    let ghost first = out@;
    let mut k = start;
    while k < end
        invariant
            start <= k <= end,
            end <= v@.len(),
            out@ == first + v@.subrange(start as int, k as int),
        decreases end - k,
    {
        out.push(v[k]);
        assert(first + v@.subrange(start as int, k + 1) =~= (first + v@.subrange(
            start as int,
            k as int,
        )).push(v@[k as int]));
        k = k + 1;
    }
}

/// `s` with every occurrence of `pat` replaced by `rep`.
pub fn replace_str(s: &str, pat: &str, rep: &str) -> (r: String)
    requires
        pat@.len() > 0,
    ensures
        r@ == replace_all(s@, pat@, rep@),
{
    let sv = chars_of(s);
    let pv = chars_of(pat);
    let rv = chars_of(rep);
    let mut out: Vec<char> = Vec::new();
    let mut i: usize = 0;
    assert(sv@.skip(0) =~= sv@);
    assert(out@ + sv@ =~= sv@);
    while i < sv.len()
        invariant
            0 <= i <= sv@.len(),
            sv@ == s@,
            pv@ == pat@,
            rv@ == rep@,
            pv@.len() > 0,
            out@ + replace_all(sv@.skip(i as int), pv@, rv@) == replace_all(sv@, pv@, rv@),
        decreases sv@.len() - i,
    {
        let ghost rest = sv@.skip(i as int);
        let ghost before = out@;
        if sv.len() - i < pv.len() {
            assert(replace_all(rest, pv@, rv@) == rest);
            extend_chars(&mut out, &sv, i, sv.len());
            assert(sv@.subrange(i as int, sv@.len() as int) =~= rest);
            i = sv.len();
            assert(sv@.skip(i as int) =~= Seq::<char>::empty());
            assert(out@ + Seq::<char>::empty() =~= out@);
        } else if matches_at(&sv, i, &pv) {
            assert(rest.take(pv@.len() as int) == pv@);
            assert(rest.skip(pv@.len() as int) =~= sv@.skip(i + pv@.len()));
            extend_chars(&mut out, &rv, 0, rv.len());
            assert(rv@.subrange(0, rv@.len() as int) =~= rv@);
            i = i + pv.len();
            assert(out@ + replace_all(sv@.skip(i as int), pv@, rv@) =~= before + (rv@
                + replace_all(rest.skip(pv@.len() as int), pv@, rv@)));
        } else {
            assert(rest.skip(1) =~= sv@.skip(i + 1));
            assert(rest[0] == sv@[i as int]);
            out.push(sv[i]);
            i = i + 1;
            assert(out@ + replace_all(sv@.skip(i as int), pv@, rv@) =~= before + (seq![rest[0]]
                + replace_all(rest.skip(1), pv@, rv@)));
        }
    }
    assert(sv@.skip(i as int) =~= Seq::<char>::empty());
    assert(out@ + Seq::<char>::empty() =~= out@);
    string_from_chars(out.as_slice())
}


/// The characters of `v` from `start` up to `end`.
pub fn slice_chars(v: &Vec<char>, start: usize, end: usize) -> (r: Vec<char>)
    requires
        start <= end <= v@.len(),
    ensures
        r@ == v@.subrange(start as int, end as int),
{
    let mut r: Vec<char> = Vec::new();
    extend_chars(&mut r, v, start, end);
    assert(Seq::<char>::empty() + v@.subrange(start as int, end as int) =~= v@.subrange(
        start as int,
        end as int,
    ));
    r
}

/// Index of the first `c` in `s`, or the length of `s` when there is none.
pub open spec fn first_index_of(s: Seq<char>, c: char) -> int
    decreases s.len(),
{
    if s.len() == 0 {
        0
    } else {
        let k = first_index_of(s.drop_last(), c);
        if k < s.len() - 1 {
            k
        } else if s.last() == c {
            s.len() - 1
        } else {
            s.len() as int
        }
    }
}

/// The first `c` in `s` is at `first_index_of(s, c)`, and there is none
/// before it.
pub proof fn lemma_first_index_of(s: Seq<char>, c: char)
    ensures
        0 <= first_index_of(s, c) <= s.len(),
        first_index_of(s, c) < s.len() ==> s[first_index_of(s, c)] == c,
        forall|j: int| 0 <= j < first_index_of(s, c) ==> s[j] != c,
    decreases s.len(),
{
    if s.len() > 0 {
        lemma_first_index_of(s.drop_last(), c);
        assert forall|j: int| 0 <= j < first_index_of(s, c) implies s[j] != c by {
            if j < s.len() - 1 {
                assert(s.drop_last()[j] == s[j]);
            }
        }
    }
}

/// Index of the first `c` in `v`, or its length when there is none.
pub fn index_of_char(v: &Vec<char>, c: char) -> (r: usize)
    ensures
        r as int == first_index_of(v@, c),
{
    let mut i: usize = 0;
    proof {
        lemma_first_index_of(v@, c);
    }
    while i < v.len()
        invariant
            0 <= i <= v@.len(),
            forall|j: int| 0 <= j < i ==> v@[j] != c,
            0 <= first_index_of(v@, c) <= v@.len(),
            first_index_of(v@, c) < v@.len() ==> v@[first_index_of(v@, c)] == c,
            forall|j: int| 0 <= j < first_index_of(v@, c) ==> v@[j] != c,
        decreases v@.len() - i,
    {
        if v[i] == c {
            return i;
        }
        i = i + 1;
    }
    i
}

/// The pieces of `s` between occurrences of `c`, as `str::split` gives
/// them (an empty `s` gives one empty piece).
pub open spec fn split_pieces(s: Seq<char>, c: char) -> Seq<Seq<char>>
    decreases s.len(),
{
    if s.len() == 0 {
        seq![Seq::<char>::empty()]
    } else {
        let ps = split_pieces(s.drop_last(), c);
        if s.last() == c {
            ps.push(Seq::<char>::empty())
        } else {
            ps.update(ps.len() - 1, ps.last().push(s.last()))
        }
    }
}

/// `split_pieces` never gives an empty list.
pub proof fn lemma_split_pieces_nonempty(s: Seq<char>, c: char)
    ensures
        split_pieces(s, c).len() >= 1,
    decreases s.len(),
{
    if s.len() > 0 {
        lemma_split_pieces_nonempty(s.drop_last(), c);
    }
}

/// The characters of each vector in `v`.
pub open spec fn pieces_view(v: Seq<Vec<char>>) -> Seq<Seq<char>> {
    v.map_values(|p: Vec<char>| p@)
}

/// The pieces of `v` between occurrences of `c` (see `split_pieces`).
pub fn split_chars(v: &Vec<char>, c: char) -> (r: Vec<Vec<char>>)
    ensures
        pieces_view(r@) == split_pieces(v@, c),
{
    let mut done: Vec<Vec<char>> = Vec::new();
    let mut cur: Vec<char> = Vec::new();
    let mut i: usize = 0;
    assert(v@.take(0) =~= Seq::<char>::empty());
    assert(pieces_view(done@).push(cur@) =~= seq![Seq::<char>::empty()]);
    while i < v.len()
        invariant
            0 <= i <= v@.len(),
            pieces_view(done@).push(cur@) == split_pieces(v@.take(i as int), c),
        decreases v@.len() - i,
    {
        assert(v@.take(i + 1).drop_last() =~= v@.take(i as int));
        assert(v@.take(i + 1).last() == v@[i as int]);
        let ghost ps = pieces_view(done@).push(cur@);
        if v[i] == c {
            let piece = cur;
            done.push(piece);
            cur = Vec::new();
            assert(pieces_view(done@).push(cur@) =~= ps.push(Seq::<char>::empty()));
        } else {
            cur.push(v[i]);
            assert(pieces_view(done@).push(cur@) =~= ps.update(ps.len() - 1, ps.last().push(
                v@[i as int],
            )));
        }
        i = i + 1;
    }
    assert(v@.take(i as int) =~= v@);
    let ghost before = pieces_view(done@).push(cur@);
    done.push(cur);
    assert(pieces_view(done@) =~= before);
    done
}

/// `s` with every `from` replaced by `to`.
pub open spec fn replace_char(s: Seq<char>, from: char, to: char) -> Seq<char> {
    s.map_values(|x: char| if x == from { to } else { x })
}

/// `v` with every `from` replaced by `to`.
pub fn replace_chars(v: &Vec<char>, from: char, to: char) -> (r: Vec<char>)
    ensures
        r@ == replace_char(v@, from, to),
{
    let mut r: Vec<char> = Vec::new();
    let mut i: usize = 0;
    while i < v.len()
        invariant
            0 <= i <= v@.len(),
            r@ == replace_char(v@.take(i as int), from, to),
        decreases v@.len() - i,
    {
        let x = v[i];
        r.push(if x == from { to } else { x });
        assert(replace_char(v@.take(i + 1), from, to) =~= replace_char(v@.take(i as int), from, to).push(
            if x == from { to } else { x },
        ));
        i = i + 1;
    }
    assert(v@.take(i as int) =~= v@);
    r
}

/// `s` without the run of `c` it ends with (as `trim_end_matches(c)`).
pub open spec fn trim_end_char(s: Seq<char>, c: char) -> Seq<char>
    decreases s.len(),
{
    if s.len() > 0 && s.last() == c {
        trim_end_char(s.drop_last(), c)
    } else {
        s
    }
}

/// `v` without the run of `c` it ends with.
pub fn trim_end_chars(v: &Vec<char>, c: char) -> (r: Vec<char>)
    ensures
        r@ == trim_end_char(v@, c),
{
    let mut k: usize = v.len();
    assert(v@.take(k as int) =~= v@);
    while k > 0 && v[k - 1] == c
        invariant
            0 <= k <= v@.len(),
            trim_end_char(v@, c) == trim_end_char(v@.take(k as int), c),
        decreases k,
    {
        assert(v@.take(k as int).drop_last() =~= v@.take(k - 1));
        k = k - 1;
    }
    slice_chars(v, 0, k)
}

/// `s` begins with `p`.
pub open spec fn starts_with(s: Seq<char>, p: Seq<char>) -> bool {
    p.len() <= s.len() && s.take(p.len() as int) == p
}

/// Whether `s` begins with `p`.
pub fn str_starts_with(s: &str, p: &str) -> (r: bool)
    ensures
        r == starts_with(s@, p@),
{
    let sv = chars_of(s);
    let pv = chars_of(p);
    if pv.len() > sv.len() {
        return false;
    }
    let mut i: usize = 0;
    while i < pv.len()
        invariant
            0 <= i <= pv@.len(),
            pv@.len() <= sv@.len(),
            sv@ == s@,
            pv@ == p@,
            forall|j: int| 0 <= j < i ==> sv@[j] == pv@[j],
        decreases pv@.len() - i,
    {
        if sv[i] != pv[i] {
            assert(sv@.take(pv@.len() as int)[i as int] != pv@[i as int]);
            return false;
        }
        i = i + 1;
    }
    assert(sv@.take(pv@.len() as int) =~= pv@);
    true
}

/// The number an ASCII decimal or lower-case hexadecimal digit stands for.
pub open spec fn digit_value(c: char) -> int {
    if 'a' <= c && c <= 'f' {
        (c as int) - ('a' as int) + 10
    } else {
        (c as int) - ('0' as int)
    }
}

/// The number that a string of decimal digits writes.
pub open spec fn decimal_value(s: Seq<char>) -> int
    decreases s.len(),
{
    if s.len() == 0 {
        0
    } else {
        decimal_value(s.drop_last()) * 10 + digit_value(s.last())
    }
}

proof fn lemma_digit_char_value(d: nat)
    requires
        d < 10,
    ensures
        '0' <= digit_char(d) <= '9',
        digit_value(digit_char(d)) == d,
        (digit_char(d) == '0') == (d == 0),
{
}

proof fn lemma_hex_char_value(d: nat)
    requires
        d < 16,
    ensures
        ('0' <= hex_char(d) <= '9') || ('a' <= hex_char(d) <= 'f'),
        digit_value(hex_char(d)) == d,
{
    if d < 10 {
        lemma_digit_char_value(d);
    }
}

/// `decimal(n)` writes `n`: it is made of decimal digits only, the number
/// they write is `n`, and it has no leading zero (`0` itself is the single
/// digit `0`).
pub proof fn lemma_decimal_writes_the_number(n: nat)
    ensures
        decimal(n).len() >= 1,
        forall|i: int| 0 <= i < decimal(n).len() ==> '0' <= #[trigger] decimal(n)[i] <= '9',
        decimal_value(decimal(n)) == n,
        (decimal(n)[0] == '0') == (n == 0),
    decreases n,
{
    if n < 10 {
        lemma_digit_char_value(n);
        let d = seq![digit_char(n)];
        assert(decimal(n) == d);
        assert(d.drop_last() =~= Seq::<char>::empty());
        assert(d.last() == digit_char(n));
        assert(decimal_value(d) == decimal_value(d.drop_last()) * 10 + digit_value(d.last()));
        assert(decimal_value(Seq::<char>::empty()) == 0);
    } else {
        lemma_decimal_writes_the_number(n / 10);
        lemma_digit_char_value(n % 10);
        let rest = decimal(n / 10);
        assert(decimal(n) == rest.push(digit_char(n % 10)));
        assert(rest.push(digit_char(n % 10)).drop_last() =~= rest);
        let full = rest.push(digit_char(n % 10));
        assert(decimal_value(full) == decimal_value(full.drop_last()) * 10 + digit_value(full.last()));
        assert(full.last() == digit_char(n % 10));
        assert((n / 10) * 10 + n % 10 == n);
        assert(forall|i: int| 0 <= i < rest.len() ==> rest.push(digit_char(n % 10))[i] == rest[i]);
    }
}

/// `hex_lower(bytes)` writes each byte as two lower-case hexadecimal
/// digits, high nibble first: it is twice as long as `bytes`, and the two
/// digits at `2i` and `2i + 1` make byte `i`.
pub proof fn lemma_hex_lower_writes_the_bytes(bytes: Seq<u8>)
    ensures
        hex_lower(bytes).len() == 2 * bytes.len(),
        forall|i: int|
            0 <= i < hex_lower(bytes).len() ==> ('0' <= #[trigger] hex_lower(bytes)[i] <= '9') || ('a'
                <= hex_lower(bytes)[i] <= 'f'),
        forall|i: int|
            0 <= i < bytes.len() ==> digit_value(#[trigger] hex_lower(bytes)[2 * i]) * 16 + digit_value(
                hex_lower(bytes)[2 * i + 1],
            ) == bytes[i] as int,
    decreases bytes.len(),
{
    if bytes.len() > 0 {
        let rest = bytes.drop_last();
        lemma_hex_lower_writes_the_bytes(rest);
        let b = bytes.last();
        let h = hex_lower(rest);
        lemma_hex_char_value((b / 16) as nat);
        lemma_hex_char_value((b % 16) as nat);
        let r = h.push(hex_char((b / 16) as nat)).push(hex_char((b % 16) as nat));
        assert(hex_lower(bytes) == r);
        assert forall|i: int| 0 <= i < r.len() implies ('0' <= #[trigger] r[i] <= '9') || ('a' <= r[i] <= 'f') by {
            if i < h.len() {
                assert(r[i] == h[i]);
            }
        }
        assert forall|i: int| 0 <= i < bytes.len() implies digit_value(#[trigger] r[2 * i]) * 16 + digit_value(
            r[2 * i + 1],
        ) == bytes[i] as int by {
            if i < rest.len() {
                assert(r[2 * i] == h[2 * i]);
                assert(r[2 * i + 1] == h[2 * i + 1]);
                assert(rest[i] == bytes[i]);
            } else {
                assert(i == rest.len());
                assert(r[2 * i] == hex_char((b / 16) as nat));
                assert(r[2 * i + 1] == hex_char((b % 16) as nat));
                assert((b / 16) * 16 + b % 16 == b);
            }
        }
    }
}

/// `pat` occurs in `s` at index `i`.
pub open spec fn occurs_at(s: Seq<char>, pat: Seq<char>, i: int) -> bool {
    0 <= i && i + pat.len() <= s.len() && s.subrange(i, i + pat.len()) == pat
}

/// Replacing a pattern that does not occur in `s` leaves `s` as it is.
pub proof fn lemma_replace_absent_pattern(s: Seq<char>, pat: Seq<char>, rep: Seq<char>)
    requires
        forall|i: int| !occurs_at(s, pat, i),
    ensures
        replace_all(s, pat, rep) == s,
    decreases s.len(),
{
    if pat.len() > 0 && s.len() >= pat.len() {
        assert(s.take(pat.len() as int) =~= s.subrange(0, pat.len() as int));
        assert(!occurs_at(s, pat, 0));
        let t = s.skip(1);
        assert forall|i: int| !occurs_at(t, pat, i) by {
            if occurs_at(t, pat, i) {
                assert(s.subrange(i + 1, i + 1 + pat.len()) =~= t.subrange(i, i + pat.len()));
                assert(occurs_at(s, pat, i + 1));
            }
        }
        lemma_replace_absent_pattern(t, pat, rep);
        assert(seq![s[0]] + t =~= s);
    }
}

/// Replacing in `pat` followed by `rest` puts `rep` in place of that
/// first occurrence and goes on replacing in `rest`.
pub proof fn lemma_replace_leading_pattern(pat: Seq<char>, rest: Seq<char>, rep: Seq<char>)
    requires
        pat.len() > 0,
    ensures
        replace_all(pat + rest, pat, rep) == rep + replace_all(rest, pat, rep),
{
    assert((pat + rest).take(pat.len() as int) =~= pat);
    assert((pat + rest).skip(pat.len() as int) =~= rest);
}

} // verus!

//! Character and string utilities shared by the parsers and the
//! presentation layer: whitespace classification, conversion between
//! `&str` and `Vec<char>`, and string equality.

use vstd::prelude::*;

verus! {

/// The whitespace characters recognised when trimming and tokenising
/// tool output (the ASCII whitespace set).
pub open spec fn is_space_char(c: char) -> bool {
    c == ' ' || c == '\t' || c == '\n' || c == '\r' || c == '\x0b' || c == '\x0c'
}

/// Executable test for [`is_space_char`].
pub fn is_space(c: char) -> (r: bool)
    ensures
        r == is_space_char(c),
{
    c == ' ' || c == '\t' || c == '\n' || c == '\r' || c == '\x0b' || c == '\x0c'
}

/// Collect the characters of a string slice into a vector.
pub fn chars_of(s: &str) -> (v: Vec<char>)
    ensures
        v@ == s@,
{
    let n = s.unicode_len();
    let mut v: Vec<char> = Vec::new();
    let mut i: usize = 0;
    while i < n
        invariant
            i <= n,
            n == s@.len(),
            v@ == s@.take(i as int),
        decreases n - i,
    {
        let c = s.get_char(i);
        v.push(c);
        proof {
            assert(s@.take(i + 1) =~= s@.take(i as int).push(s@[i as int]));
        }
        i = i + 1;
    }
    proof {
        assert(s@.take(n as int) =~= s@);
    }
    v
}

/// Relies on `String::push`: appends the given character to the end of
/// the string.
#[verifier::external_body]
pub fn push_char(s: &mut String, c: char)
    ensures
        final(s)@ == old(s)@.push(c),
{
    s.push(c);
}

/// Build a `String` out of a sequence of characters.
pub fn string_of(v: &Vec<char>) -> (s: String)
    ensures
        s@ == v@,
{
    let mut s = String::new();
    let mut i: usize = 0;
    while i < v.len()
        invariant
            i <= v.len(),
            s@ == v@.take(i as int),
        decreases v.len() - i,
    {
        push_char(&mut s, v[i]);
        proof {
            assert(v@.take(i + 1) =~= v@.take(i as int).push(v@[i as int]));
        }
        i = i + 1;
    }
    proof {
        assert(v@.take(v@.len() as int) =~= v@);
    }
    s
}

/// Relies on `str`'s `PartialEq`: string slices compare equal exactly
/// when their character contents are equal.
#[verifier::external_body]
pub fn str_eq(a: &str, b: &str) -> (r: bool)
    ensures
        r == (a@ == b@),
{
    a == b
}

/// Copy the characters of `v` between positions `a` and `b`.
pub fn sub_chars(v: &Vec<char>, a: usize, b: usize) -> (r: Vec<char>)
    requires
        a <= b <= v@.len(),
    ensures
        r@ == v@.subrange(a as int, b as int),
{
    let mut r: Vec<char> = Vec::new();
    let mut i: usize = a;
    while i < b
        invariant
            a <= i <= b <= v@.len(),
            r@ == v@.subrange(a as int, i as int),
        decreases b - i,
    {
        r.push(v[i]);
        proof {
            assert(v@.subrange(a as int, i + 1) =~= v@.subrange(a as int, i as int).push(
                v@[i as int],
            ));
        }
        i = i + 1;
    }
    r
}

/// A sequence with its leading whitespace removed.
pub open spec fn trim_front(s: Seq<char>) -> Seq<char>
    decreases s.len(),
{
    if s.len() == 0 {
        s
    } else if is_space_char(s[0]) {
        trim_front(s.drop_first())
    } else {
        s
    }
}

/// A sequence with its trailing whitespace removed.
pub open spec fn trim_back(s: Seq<char>) -> Seq<char>
    decreases s.len(),
{
    if s.len() == 0 {
        s
    } else if is_space_char(s.last()) {
        trim_back(s.drop_last())
    } else {
        s
    }
}

/// A sequence with leading and trailing whitespace removed.
pub open spec fn trim_spec(s: Seq<char>) -> Seq<char> {
    trim_back(trim_front(s))
}

/// Remove leading and trailing whitespace characters.
pub fn trim_chars(v: &Vec<char>) -> (r: Vec<char>)
    ensures
        r@ == trim_spec(v@),
{
    let n = v.len();
    let mut a: usize = 0;
    proof {
        assert(v@.skip(0) =~= v@);
    }
    while a < n && is_space(v[a])
        invariant
            a <= n,
            n == v@.len(),
            trim_front(v@) == trim_front(v@.skip(a as int)),
        decreases n - a,
    {
        proof {
            assert(v@.skip(a as int).drop_first() =~= v@.skip(a + 1));
        }
        a = a + 1;
    }
    proof {
        if a < n {
            assert(trim_front(v@.skip(a as int)) == v@.skip(a as int));
        }
        assert(trim_front(v@) == v@.skip(a as int));
    }
    let mut b: usize = n;
    while b > a && is_space(v[b - 1])
        invariant
            a <= b <= n,
            n == v@.len(),
            trim_front(v@) == v@.skip(a as int),
            trim_back(v@.skip(a as int)) == trim_back(v@.subrange(a as int, b as int)),
        decreases b,
    {
        proof {
            assert(v@.subrange(a as int, b as int).last() == v@[b - 1]);
            assert(v@.subrange(a as int, b as int).drop_last() =~= v@.subrange(a as int, b - 1));
        }
        b = b - 1;
    }
    proof {
        if b > a {
            assert(v@.subrange(a as int, b as int).last() == v@[b - 1]);
            assert(trim_back(v@.subrange(a as int, b as int)) == v@.subrange(a as int, b as int));
        } else {
            assert(v@.subrange(a as int, b as int) =~= Seq::<char>::empty());
            assert(trim_back(v@.subrange(a as int, b as int)) == v@.subrange(a as int, b as int));
        }
        assert(v@.skip(a as int) =~= v@.subrange(a as int, n as int));
    }
    sub_chars(v, a, b)
}

/// Lexicographic (code-point) order on character sequences, the order in
/// which fleet results and tag lists are presented.
pub open spec fn lex_le(a: Seq<char>, b: Seq<char>) -> bool
    decreases a.len(),
{
    if a.len() == 0 {
        true
    } else if b.len() == 0 {
        false
    } else if a[0] == b[0] {
        lex_le(a.drop_first(), b.drop_first())
    } else {
        (a[0] as u32) < (b[0] as u32)
    }
}

/// Executable lexicographic comparison of two strings.
pub fn str_lex_le(a: &str, b: &str) -> (r: bool)
    ensures
        r == lex_le(a@, b@),
{
    let na = a.unicode_len();
    let nb = b.unicode_len();
    let mut i: usize = 0;
    proof {
        assert(a@.skip(0) =~= a@);
        assert(b@.skip(0) =~= b@);
    }
    loop
        invariant
            i <= na,
            i <= nb,
            na == a@.len(),
            nb == b@.len(),
            lex_le(a@, b@) == lex_le(a@.skip(i as int), b@.skip(i as int)),
        decreases na - i,
    {
        if i >= na {
            return true;
        }
        if i >= nb {
            return false;
        }
        let ca = a.get_char(i);
        let cb = b.get_char(i);
        if ca != cb {
            return (ca as u32) < (cb as u32);
        }
        proof {
            assert(a@.skip(i as int).drop_first() =~= a@.skip(i + 1));
            assert(b@.skip(i as int).drop_first() =~= b@.skip(i + 1));
        }
        i = i + 1;
    }
}

/// The views of a sequence of character vectors.
pub open spec fn seqs_of(ts: Seq<Vec<char>>) -> Seq<Seq<char>> {
    ts.map_values(|t: Vec<char>| t@)
}

/// The views of a sequence of strings.
pub open spec fn str_views(ts: Seq<String>) -> Seq<Seq<char>> {
    ts.map_values(|t: String| t@)
}

/// Length of the whitespace-free token starting at position `i`.
pub open spec fn token_len(s: Seq<char>, i: int) -> nat
    decreases s.len() - i,
{
    if i < 0 || i >= s.len() || is_space_char(s[i]) {
        0
    } else {
        1 + token_len(s, i + 1)
    }
}

/// The whitespace-separated tokens of `s`, starting at position `i`.
pub open spec fn split_ws_at(s: Seq<char>, i: int) -> Seq<Seq<char>>
    decreases s.len() - i,
    via split_ws_at_decreases
{
    if i < 0 || i >= s.len() {
        seq![]
    } else if is_space_char(s[i]) {
        split_ws_at(s, i + 1)
    } else {
        seq![s.subrange(i, i + token_len(s, i))] + split_ws_at(s, i + token_len(s, i))
    }
}

#[via_fn]
proof fn split_ws_at_decreases(s: Seq<char>, i: int) {
    if 0 <= i < s.len() && !is_space_char(s[i]) {
        assert(token_len(s, i) == 1 + token_len(s, i + 1));
        lemma_token_len_bound(s, i);
    }
}

/// The end of a token never passes the end of the string.
pub proof fn lemma_token_len_bound(s: Seq<char>, i: int)
    requires
        0 <= i <= s.len(),
    ensures
        i + token_len(s, i) <= s.len(),
    decreases s.len() - i,
{
    if i < s.len() && !is_space_char(s[i]) {
        lemma_token_len_bound(s, i + 1);
    }
}

/// The whitespace-separated tokens of `s`: maximal runs of non-whitespace
/// characters, in order.
pub open spec fn split_ws(s: Seq<char>) -> Seq<Seq<char>> {
    split_ws_at(s, 0)
}

/// Split a string into its whitespace-separated tokens.
pub fn split_ws_chars(v: &Vec<char>) -> (toks: Vec<Vec<char>>)
    ensures
        seqs_of(toks@) == split_ws(v@),
{
    let n = v.len();
    let mut toks: Vec<Vec<char>> = Vec::new();
    let mut i: usize = 0;
    proof {
        assert(seqs_of(toks@) + split_ws_at(v@, 0) =~= split_ws(v@));
    }
    while i < n
        invariant
            i <= n,
            n == v@.len(),
            split_ws(v@) == seqs_of(toks@) + split_ws_at(v@, i as int),
        decreases n - i,
    {
        if is_space(v[i]) {
            proof {
                assert(split_ws_at(v@, i as int) == split_ws_at(v@, i + 1));
            }
            i = i + 1;
        } else {
            let start = i;
            let mut j: usize = i;
            while j < n && !is_space(v[j])
                invariant
                    start <= j <= n,
                    n == v@.len(),
                    token_len(v@, start as int) == (j - start) + token_len(v@, j as int),
                decreases n - j,
            {
                proof {
                    assert(token_len(v@, j as int) == 1 + token_len(v@, j + 1));
                }
                j = j + 1;
            }
            proof {
                assert(token_len(v@, j as int) == 0);
                assert(token_len(v@, start as int) == j - start);
                assert(split_ws_at(v@, start as int) == seq![
                    v@.subrange(start as int, j as int),
                ] + split_ws_at(v@, j as int));
            }
            let t = sub_chars(v, start, j);
            let ghost prev = toks@;
            toks.push(t);
            proof {
                assert(seqs_of(toks@) =~= seqs_of(prev) + seq![t@]);
                assert(seqs_of(prev) + seq![t@] + split_ws_at(v@, j as int) =~= seqs_of(prev)
                    + (seq![t@] + split_ws_at(v@, j as int)));
            }
            i = j;
        }
    }
    proof {
        assert(seqs_of(toks@) + split_ws_at(v@, n as int) =~= seqs_of(toks@));
    }
    toks
}

/// The parts of `s` from position `i` on, separated by the character
/// `c`.  Every part is kept, including empty ones, so splitting `"a,"`
/// on `','` gives the parts `"a"` and `""`.
pub open spec fn split_char_at(s: Seq<char>, i: int, c: char) -> Seq<Seq<char>>
    decreases s.len() - i,
{
    if i < 0 || i > s.len() {
        seq![]
    } else {
        let j = i + find_from(s, i, c);
        if j >= s.len() {
            seq![s.subrange(i, j)]
        } else {
            seq![s.subrange(i, j)] + split_char_at(s, j + 1, c)
        }
    }
}

/// The parts of `s` separated by the character `c`.
pub open spec fn split_char(s: Seq<char>, c: char) -> Seq<Seq<char>> {
    split_char_at(s, 0, c)
}

/// The newline-separated parts of `s`: its lines, with a final empty
/// part when `s` ends in a newline.
pub open spec fn split_nl(s: Seq<char>) -> Seq<Seq<char>> {
    split_char(s, '\n')
}

/// Split a string into its parts separated by the character `c`.
pub fn split_char_chars(v: &Vec<char>, c: char) -> (parts: Vec<Vec<char>>)
    ensures
        seqs_of(parts@) == split_char(v@, c),
{
    let n = v.len();
    let mut parts: Vec<Vec<char>> = Vec::new();
    let mut i: usize = 0;
    let mut done = false;
    proof {
        assert(seqs_of(parts@) + split_char_at(v@, 0, c) =~= split_char(v@, c));
    }
    while !done
        invariant
            i <= n,
            n == v@.len(),
            done ==> split_char(v@, c) == seqs_of(parts@),
            !done ==> split_char(v@, c) == seqs_of(parts@) + split_char_at(v@, i as int, c),
        decreases n - i + (if done { 0int } else { 1 }),
    {
        let start = i;
        let j = find_char(v, i, c);
        let t = sub_chars(v, start, j);
        let ghost prev = parts@;
        parts.push(t);
        if j < n {
            proof {
                assert(split_char_at(v@, start as int, c) == seq![t@] + split_char_at(
                    v@,
                    j + 1,
                    c,
                ));
                assert(seqs_of(parts@) =~= seqs_of(prev) + seq![t@]);
                assert(seqs_of(prev) + seq![t@] + split_char_at(v@, j + 1, c) =~= seqs_of(prev) + (
                seq![t@] + split_char_at(v@, j + 1, c)));
            }
            i = j + 1;
        } else {
            proof {
                assert(split_char_at(v@, start as int, c) == seq![t@]);
                assert(seqs_of(parts@) =~= seqs_of(prev) + seq![t@]);
            }
            i = n;
            done = true;
        }
    }
    parts
}

/// Split a string into its newline-separated parts.
pub fn split_nl_chars(v: &Vec<char>) -> (lines: Vec<Vec<char>>)
    ensures
        seqs_of(lines@) == split_nl(v@),
{
    split_char_chars(v, '\n')
}

/// `pat` occurs in `s` at position `i`.
pub open spec fn has_sub_at(s: Seq<char>, pat: Seq<char>, i: int) -> bool {
    0 <= i && i + pat.len() <= s.len() && s.subrange(i, i + pat.len()) == pat
}

/// `pat` occurs somewhere in `s`.
pub open spec fn contains_sub(s: Seq<char>, pat: Seq<char>) -> bool {
    exists|i: int| has_sub_at(s, pat, i)
}

/// Substring search: does `pat` occur in `hay`?
pub fn contains_chars(hay: &Vec<char>, pat: &Vec<char>) -> (r: bool)
    ensures
        r == contains_sub(hay@, pat@),
{
    let n = hay.len();
    let m = pat.len();
    if m > n {
        proof {
            assert(forall|i: int| !has_sub_at(hay@, pat@, i));
        }
        return false;
    }
    if m == 0 {
        proof {
            assert(hay@.subrange(0, 0) =~= pat@);
            assert(has_sub_at(hay@, pat@, 0));
        }
        return true;
    }
    let mut i: usize = 0;
    while i <= n - m
        invariant
            0 < m <= n,
            n == hay@.len(),
            m == pat@.len(),
            i <= n - m + 1,
            forall|k: int| 0 <= k < i ==> !has_sub_at(hay@, pat@, k),
        decreases n - m + 1 - i,
    {
        let mut j: usize = 0;
        let mut matched = true;
        while j < m && matched
            invariant
                i + m <= n,
                n == hay@.len(),
                m == pat@.len(),
                j <= m,
                matched ==> forall|k: int| 0 <= k < j ==> hay@[i + k] == pat@[k],
                !matched ==> !has_sub_at(hay@, pat@, i as int),
            decreases m - j + (if matched { 1int } else { 0 }),
        {
            if hay[i + j] != pat[j] {
                proof {
                    assert(hay@.subrange(i as int, i + m)[j as int] == hay@[i + j]);
                }
                matched = false;
            } else {
                j = j + 1;
            }
        }
        if matched {
            proof {
                assert(hay@.subrange(i as int, i + m) =~= pat@);
                assert(has_sub_at(hay@, pat@, i as int));
            }
            return true;
        }
        i = i + 1;
    }
    proof {
        assert(forall|k: int| i <= k ==> !has_sub_at(hay@, pat@, k));
    }
    false
}

/// `s` begins with the prefix `p`.
pub open spec fn starts_with(s: Seq<char>, p: Seq<char>) -> bool {
    s.len() >= p.len() && s.subrange(0, p.len() as int) == p
}

/// Does `v` begin with the prefix `p`?
pub fn starts_with_chars(v: &Vec<char>, p: &Vec<char>) -> (r: bool)
    ensures
        r == starts_with(v@, p@),
{
    let m = p.len();
    if m > v.len() {
        return false;
    }
    let mut j: usize = 0;
    while j < m
        invariant
            j <= m,
            m == p@.len(),
            m <= v@.len(),
            forall|k: int| 0 <= k < j ==> v@[k] == p@[k],
        decreases m - j,
    {
        if v[j] != p[j] {
            proof {
                assert(v@.subrange(0, m as int)[j as int] == v@[j as int]);
            }
            return false;
        }
        j = j + 1;
    }
    proof {
        assert(v@.subrange(0, m as int) =~= p@);
    }
    true
}

/// Distance from position `i` to the first occurrence of `c` at or after
/// `i`, or to the end of the string if `c` does not occur.
pub open spec fn find_from(s: Seq<char>, i: int, c: char) -> nat
    decreases s.len() - i,
{
    if i < 0 || i >= s.len() || s[i] == c {
        0
    } else {
        1 + find_from(s, i + 1, c)
    }
}

/// Scan for the first occurrence of `c` at or after position `from`.
pub fn find_char(v: &Vec<char>, from: usize, c: char) -> (j: usize)
    requires
        from <= v@.len(),
    ensures
        j == from + find_from(v@, from as int, c),
        j <= v@.len(),
        j < v@.len() ==> v@[j as int] == c,
{
    let n = v.len();
    let mut j: usize = from;
    while j < n && v[j] != c
        invariant
            from <= j <= n,
            n == v@.len(),
            find_from(v@, from as int, c) == (j - from) + find_from(v@, j as int, c),
        decreases n - j,
    {
        proof {
            assert(find_from(v@, j as int, c) == 1 + find_from(v@, j + 1, c));
        }
        j = j + 1;
    }
    proof {
        assert(find_from(v@, j as int, c) == 0);
    }
    j
}

/// The parts joined with the separator between consecutive parts.
pub open spec fn join_with(parts: Seq<Seq<char>>, sep: Seq<char>) -> Seq<char>
    decreases parts.len(),
{
    if parts.len() == 0 {
        Seq::empty()
    } else if parts.len() == 1 {
        parts[0]
    } else {
        join_with(parts.drop_last(), sep) + sep + parts.last()
    }
}

/// Join a list of strings, placing `sep` between consecutive elements.
pub fn join_all(list: &Vec<String>, sep: &str) -> (r: String)
    ensures
        r@ == join_with(str_views(list@), sep@),
{
    let mut r = String::new();
    let ghost parts = str_views(list@);
    let mut i: usize = 0;
    proof {
        assert(parts.take(0) =~= Seq::<Seq<char>>::empty());
    }
    while i < list.len()
        invariant
            i <= list.len(),
            parts == str_views(list@),
            parts.len() == list@.len(),
            forall|k: int| 0 <= k < list@.len() ==> parts[k] == list@[k]@,
            r@ == join_with(parts.take(i as int), sep@),
        decreases list.len() - i,
    {
        if i > 0 {
            r.append(sep);
        }
        r.append(list[i].as_str());
        proof {
            assert(parts.take(i + 1).drop_last() =~= parts.take(i as int));
            assert(parts.take(i + 1).last() == parts[i as int]);
        }
        i = i + 1;
    }
    proof {
        assert(parts.take(list@.len() as int) =~= parts);
    }
    r
}

/// The decimal digit character for `d`.
pub open spec fn digit_char(d: int) -> char {
    if d == 0 {
        '0'
    } else if d == 1 {
        '1'
    } else if d == 2 {
        '2'
    } else if d == 3 {
        '3'
    } else if d == 4 {
        '4'
    } else if d == 5 {
        '5'
    } else if d == 6 {
        '6'
    } else if d == 7 {
        '7'
    } else if d == 8 {
        '8'
    } else {
        '9'
    }
}

/// The decimal representation of a non-negative integer, without leading
/// zeros.
pub open spec fn dec_str(n: int) -> Seq<char>
    decreases n,
{
    if n < 10 {
        seq![digit_char(n)]
    } else {
        dec_str(n / 10).push(digit_char(n % 10))
    }
}

/// The decimal digit character for `d`, executably.
fn digit(d: u32) -> (c: char)
    requires
        d < 10,
    ensures
        c == digit_char(d as int),
{
    if d == 0 {
        '0'
    } else if d == 1 {
        '1'
    } else if d == 2 {
        '2'
    } else if d == 3 {
        '3'
    } else if d == 4 {
        '4'
    } else if d == 5 {
        '5'
    } else if d == 6 {
        '6'
    } else if d == 7 {
        '7'
    } else if d == 8 {
        '8'
    } else {
        '9'
    }
}

/// Render a number in decimal.
pub fn u32_str(n: u32) -> (s: String)
    ensures
        s@ == dec_str(n as int),
    decreases n,
{
    if n < 10 {
        let mut s = String::new();
        push_char(&mut s, digit(n));
        proof {
            assert(Seq::<char>::empty().push(digit_char(n as int)) =~= seq![
                digit_char(n as int),
            ]);
        }
        s
    } else {
        let mut s = u32_str(n / 10);
        push_char(&mut s, digit(n % 10));
        s
    }
}

/// Render a length or count in decimal.
pub fn usize_str(n: usize) -> (s: String)
    ensures
        s@ == dec_str(n as int),
    decreases n,
{
    if n < 10 {
        let mut s = String::new();
        push_char(&mut s, digit((n % 10) as u32));
        proof {
            assert(Seq::<char>::empty().push(digit_char(n as int)) =~= seq![
                digit_char(n as int),
            ]);
        }
        s
    } else {
        let mut s = usize_str(n / 10);
        push_char(&mut s, digit((n % 10) as u32));
        s
    }
}

/// An exact copy of a list of strings.
pub fn copy_strings(v: &Vec<String>) -> (r: Vec<String>)
    ensures
        str_views(r@) == str_views(v@),
        r@.len() == v@.len(),
{
    let mut r: Vec<String> = Vec::new();
    let mut i: usize = 0;
    while i < v.len()
        invariant
            i <= v@.len(),
            r@.len() == i,
            forall|k: int| 0 <= k < i ==> #[trigger] r@[k]@ == v@[k]@,
        decreases v.len() - i,
    {
        r.push(v[i].clone());
        i = i + 1;
    }
    proof {
        assert(str_views(r@) =~= str_views(v@));
    }
    r
}

/// The decimal representation padded to two digits, as in a clock reading.
pub open spec fn two_dec_str(n: int) -> Seq<char> {
    if n < 10 {
        seq![digit_char(0)] + dec_str(n)
    } else {
        dec_str(n)
    }
}

/// Render a number in decimal, padded with a leading zero to at least two
/// digits.
pub fn u32_str_pad2(n: u32) -> (s: String)
    ensures
        s@ == two_dec_str(n as int),
{
    if n < 10 {
        let mut s = String::new();
        push_char(&mut s, digit(0));
        push_char(&mut s, digit(n));
        proof {
            assert(Seq::<char>::empty().push(digit_char(0)).push(digit_char(n as int)) =~= seq![
                digit_char(0),
            ] + seq![digit_char(n as int)]);
        }
        s
    } else {
        u32_str(n)
    }
}

/// A sequence of names in ascending lexicographic order.
pub open spec fn seq_sorted(ss: Seq<Seq<char>>) -> bool {
    forall|i: int, j: int| 0 <= i < j < ss.len() ==> lex_le(ss[i], ss[j])
}

/// Insert a string into a lexicographically sorted vector, keeping it
/// sorted.
pub fn insert_string_sorted(r: &mut Vec<String>, x: String)
    requires
        seq_sorted(str_views(old(r)@)),
    ensures
        seq_sorted(str_views(final(r)@)),
        str_views(final(r)@).to_multiset() == str_views(old(r)@).to_multiset().insert(x@),
        final(r)@.len() == old(r)@.len() + 1,
{
    broadcast use vstd::seq_lib::group_to_multiset_ensures;

    let ghost ov = str_views(r@);
    let mut p: usize = 0;
    while p < r.len() && str_lex_le(r[p].as_str(), x.as_str())
        invariant
            p <= r@.len(),
            ov == str_views(r@),
            seq_sorted(ov),
            ov.len() == r@.len(),
            forall|k: int| 0 <= k < r@.len() ==> ov[k] == r@[k]@,
            forall|k: int| 0 <= k < p ==> lex_le(#[trigger] ov[k], x@),
        decreases r@.len() - p,
    {
        p = p + 1;
    }
    let ghost gp = p as int;
    let ghost prev = r@;
    r.insert(p, x);
    proof {
        let nv = str_views(r@);
        assert(r@[gp] == x);
        assert(forall|k: int| 0 <= k < gp ==> r@[k] == prev[k]);
        assert(forall|k: int| gp < k < r@.len() ==> r@[k] == prev[k - 1]);
        assert(nv =~= ov.insert(gp, x@));
        if gp < ov.len() {
            lemma_lex_total(ov[gp], x@);
        }
        assert forall|i: int, j: int| 0 <= i < j < nv.len() implies lex_le(nv[i], nv[j]) by {
            if i == gp && j > gp {
                if j > gp + 1 {
                    lemma_lex_trans(x@, ov[gp], ov[j - 1]);
                }
            }
        }
        assert(nv.remove(gp) =~= ov);
        assert(nv.to_multiset().remove(x@) =~= ov.to_multiset());
        assert(nv.contains(x@));
        assert(nv.to_multiset().count(x@) > 0);
        assert(nv.to_multiset() =~= ov.to_multiset().insert(x@));
    }
}

/// Sort a vector of strings into ascending lexicographic order; the
/// contents are kept, as a multiset.
pub fn sort_strings(v: &Vec<String>) -> (r: Vec<String>)
    ensures
        seq_sorted(str_views(r@)),
        str_views(r@).to_multiset() == str_views(v@).to_multiset(),
{
    broadcast use vstd::seq_lib::group_to_multiset_ensures;

    let mut r: Vec<String> = Vec::new();
    let mut i: usize = 0;
    proof {
        assert(str_views(v@.take(0)) =~= Seq::<Seq<char>>::empty());
        assert(str_views(r@) =~= Seq::<Seq<char>>::empty());
    }
    while i < v.len()
        invariant
            i <= v@.len(),
            seq_sorted(str_views(r@)),
            str_views(r@).to_multiset() == str_views(v@.take(i as int)).to_multiset(),
        decreases v@.len() - i,
    {
        insert_string_sorted(&mut r, v[i].clone());
        proof {
            assert(str_views(v@.take(i + 1)) =~= str_views(v@.take(i as int)).push(v@[i as int]@));
            vstd::seq_lib::to_multiset_build(str_views(v@.take(i as int)), v@[i as int]@);
        }
        i = i + 1;
    }
    proof {
        assert(v@.take(v@.len() as int) =~= v@);
        assert(str_views(v@.take(v@.len() as int)) =~= str_views(v@));
    }
    r
}

/// Is `x` among the strings of `v`?
pub fn strings_contain(v: &Vec<String>, x: &str) -> (r: bool)
    ensures
        r == str_views(v@).contains(x@),
{
    let mut i: usize = 0;
    while i < v.len()
        invariant
            i <= v@.len(),
            forall|k: int| 0 <= k < i ==> str_views(v@)[k] != x@,
        decreases v@.len() - i,
    {
        if str_eq(v[i].as_str(), x) {
            proof {
                assert(str_views(v@)[i as int] == x@);
            }
            return true;
        }
        i = i + 1;
    }
    false
}

/// The lexicographic order is total: two sequences are always comparable.
pub proof fn lemma_lex_total(a: Seq<char>, b: Seq<char>)
    ensures
        lex_le(a, b) || lex_le(b, a),
    decreases a.len(),
{
    if a.len() != 0 && b.len() != 0 {
        if a[0] == b[0] {
            lemma_lex_total(a.drop_first(), b.drop_first());
        } else {
            vstd::utf8::char_u32_cast(a[0], a[0] as u32);
            vstd::utf8::char_u32_cast(b[0], b[0] as u32);
            assert((a[0] as u32) != (b[0] as u32));
        }
    }
}

/// The lexicographic order is antisymmetric: mutually ordered sequences
/// are equal.
pub proof fn lemma_lex_antisym(a: Seq<char>, b: Seq<char>)
    requires
        lex_le(a, b),
        lex_le(b, a),
    ensures
        a == b,
    decreases a.len(),
{
    if a.len() != 0 && b.len() != 0 && a[0] == b[0] {
        lemma_lex_antisym(a.drop_first(), b.drop_first());
        assert(a =~= seq![a[0]] + a.drop_first());
        assert(b =~= seq![b[0]] + b.drop_first());
    } else if a.len() == 0 && b.len() == 0 {
        assert(a =~= b);
    }
}

/// The lexicographic order is transitive.
pub proof fn lemma_lex_trans(a: Seq<char>, b: Seq<char>, c: Seq<char>)
    requires
        lex_le(a, b),
        lex_le(b, c),
    ensures
        lex_le(a, c),
    decreases a.len(),
{
    if a.len() != 0 && b.len() != 0 && c.len() != 0 {
        if a[0] == b[0] && b[0] == c[0] {
            lemma_lex_trans(a.drop_first(), b.drop_first(), c.drop_first());
        }
    }
}

} // verus!

use vstd::prelude::*;
use vstd::relations::{sorted_by, total_ordering};

verus! {

/// Appends one character to a string (std `String::push`).
#[verifier::external_body]
pub(crate) fn push_char(s: &mut String, c: char)
    ensures
        final(s)@ == old(s)@.push(c),
{
    s.push(c);
}

/// The characters of a string slice, in order.
pub fn chars_of(s: &str) -> (v: Vec<char>)
    ensures
        v@ == s@,
{
    let mut v: Vec<char> = Vec::new();
    for c in it: s.chars()
        invariant
            v@ == it.seq().take(it.index() as int),
            it.seq() == s@,
    {
        v.push(c);
    }
    v
}

/// The string made of the given characters.
pub fn string_of(v: &[char]) -> (s: String)
    ensures
        s@ == v@,
{
    let mut s = String::new();
    let mut i: usize = 0;
    while i < v.len()
        invariant
            i <= v.len(),
            s@ == v@.take(i as int),
        decreases v.len() - i,
    {
        push_char(&mut s, v[i]);
        i = i + 1;
        assert(s@ == v@.take(i as int));
    }
    assert(v@.take(v.len() as int) == v@);
    s
}


/// The views of a sequence of character vectors.
pub open spec fn views(v: Seq<Vec<char>>) -> Seq<Seq<char>> {
    v.map_values(|p: Vec<char>| p@)
}

/// Whether `p` occurs in `s` starting at index `i`.
pub open spec fn occurs_at(s: Seq<char>, i: int, p: Seq<char>) -> bool {
    0 <= i && i + p.len() <= s.len() && s.subrange(i, i + p.len()) == p
}

/// Whether `s` starts with `p`.
pub open spec fn starts_with(s: Seq<char>, p: Seq<char>) -> bool {
    occurs_at(s, 0, p)
}

/// The pieces of `rest`, the first of them continuing `cur`, when `rest` is cut at
/// each leftmost non-overlapping occurrence of the non-empty pattern `pat` (the
/// occurrences themselves are dropped).
pub open spec fn split_from(cur: Seq<char>, rest: Seq<char>, pat: Seq<char>) -> Seq<Seq<char>>
    decreases rest.len(),
{
    if rest.len() == 0 {
        seq![cur]
    } else if pat.len() > 0 && occurs_at(rest, 0, pat) {
        seq![cur] + split_from(Seq::empty(), rest.skip(pat.len() as int), pat)
    } else {
        split_from(cur.push(rest[0]), rest.drop_first(), pat)
    }
}

/// `str::split` with a non-empty pattern: the pieces between the leftmost
/// non-overlapping occurrences of `pat` in `s`.
pub open spec fn split(s: Seq<char>, pat: Seq<char>) -> Seq<Seq<char>> {
    split_from(Seq::empty(), s, pat)
}

/// The index of the first occurrence of `c` in `s`.
#[verifier::opaque]
pub open spec fn first_index(s: Seq<char>, c: char) -> Option<int> {
    if exists|i: int| 0 <= i < s.len() && s[i] == c {
        Some(choose|i: int| 0 <= i < s.len() && s[i] == c && forall|j: int| 0 <= j < i ==> s[j] != c)
    } else {
        None
    }
}

/// `str::split_once` with a character: the parts before and after the first `c`.
pub open spec fn split_once(s: Seq<char>, c: char) -> Option<(Seq<char>, Seq<char>)> {
    match first_index(s, c) {
        Some(i) => Some((s.take(i), s.skip(i + 1))),
        None => None,
    }
}

/// The pieces joined with `sep` between consecutive pieces (`[T]::join`).
pub open spec fn join(p: Seq<Seq<char>>, sep: Seq<char>) -> Seq<char>
    decreases p.len(),
{
    if p.len() == 0 {
        Seq::empty()
    } else if p.len() == 1 {
        p[0]
    } else {
        join(p.drop_last(), sep) + sep + p.last()
    }
}

/// Whether `p` occurs in `s` at index `i`.
pub fn occurs_at_exec(s: &[char], i: usize, p: &[char]) -> (b: bool)
    ensures
        b == occurs_at(s@, i as int, p@),
{
    if i > s.len() || p.len() > s.len() - i {
        return false;
    }
    let mut k: usize = 0;
    while k < p.len()
        invariant
            i + p.len() <= s.len(),
            k <= p.len(),
            forall|j: int| 0 <= j < k ==> s@[i + j] == p@[j],
        decreases p.len() - k,
    {
        if s[i + k] != p[k] {
            assert(s@.subrange(i as int, i + p.len())[k as int] != p@[k as int]);
            return false;
        }
        k = k + 1;
    }
    assert(s@.subrange(i as int, i + p.len()) =~= p@);
    true
}

/// Splits `s` at each leftmost non-overlapping occurrence of `pat`.
pub fn split_exec(s: &[char], pat: &[char]) -> (pieces: Vec<Vec<char>>)
    requires
        pat.len() > 0,
    ensures
        views(pieces@) == split(s@, pat@),
{
    let mut pieces: Vec<Vec<char>> = Vec::new();
    let mut cur: Vec<char> = Vec::new();
    let mut i: usize = 0;
    assert(s@.skip(0) == s@);
    while i < s.len()
        invariant
            pat.len() > 0,
            i <= s.len(),
            views(pieces@) + split_from(cur@, s@.skip(i as int), pat@) == split(s@, pat@),
        decreases s.len() - i,
    {
        let ghost rest = s@.skip(i as int);
        if occurs_at_exec(s, i, pat) {
            assert(rest.take(pat.len() as int) == s@.subrange(i as int, i + pat.len()));
            assert(occurs_at(rest, 0, pat@));
            assert(rest.skip(pat.len() as int) == s@.skip(i + pat.len()));
            let ghost old_pieces = views(pieces@);
            let ghost old_cur = cur@;
            assert(split_from(old_cur, rest, pat@) == seq![old_cur] + split_from(Seq::empty(), rest.skip(pat.len() as int), pat@));
            pieces.push(cur);
            assert(views(pieces@) == old_pieces.push(old_cur));
            cur = Vec::new();
            i = i + pat.len();
            assert(views(pieces@) + split_from(cur@, s@.skip(i as int), pat@) =~= old_pieces + split_from(old_cur, rest, pat@));
        } else {
            assert(rest.len() >= pat@.len() ==> rest.subrange(0, pat@.len() as int) == s@.subrange(i as int, i + pat@.len()));
            assert(!occurs_at(rest, 0, pat@));
            assert(rest.drop_first() == s@.skip(i + 1));
            cur.push(s[i]);
            i = i + 1;
        }
    }
    let ghost old_pieces = views(pieces@);
    pieces.push(cur);
    assert(views(pieces@) == old_pieces.push(cur@));
    assert(views(pieces@) =~= old_pieces + seq![cur@]);
    pieces
}


/// Splits `s` at its first `c` (`str::split_once`).
pub fn split_once_exec(s: &[char], c: char) -> (res: Option<(Vec<char>, Vec<char>)>)
    ensures
        match (res, split_once(s@, c)) {
            (Some((a, b)), Some((x, y))) => a@ == x && b@ == y,
            (None, None) => true,
            _ => false,
        },
{
    reveal(first_index);
    let mut i: usize = 0;
    while i < s.len()
        invariant
            i <= s.len(),
            forall|j: int| 0 <= j < i ==> s@[j] != c,
        decreases s.len() - i,
    {
        if s[i] == c {
            proof {
                reveal(first_index);
            }
            let ghost k = choose|k: int| 0 <= k < s@.len() && s@[k] == c && forall|j: int| 0 <= j < k ==> s@[j] != c;
            assert(0 <= i < s@.len() && s@[i as int] == c && forall|j: int| 0 <= j < i ==> s@[j] != c);
            assert(k == i) by {
                if k < i {
                    assert(s@[k] != c);
                } else if k > i {
                    assert(s@[i as int] != c);
                }
            }
            let mut a: Vec<char> = Vec::new();
            let mut j: usize = 0;
            while j < i
                invariant
                    j <= i < s.len(),
                    a@ == s@.take(j as int),
                decreases i - j,
            {
                a.push(s[j]);
                j = j + 1;
                assert(a@ == s@.take(j as int));
            }
            let mut b: Vec<char> = Vec::new();
            let mut j: usize = i + 1;
            while j < s.len()
                invariant
                    i + 1 <= j <= s.len(),
                    b@ == s@.subrange(i + 1, j as int),
                decreases s.len() - j,
            {
                b.push(s[j]);
                j = j + 1;
                assert(b@ == s@.subrange(i + 1, j as int));
            }
            assert(b@ == s@.skip(i + 1));
            return Some((a, b));
        }
        i = i + 1;
    }
    None
}

/// Joins the pieces with `sep` between consecutive pieces.
pub fn join_exec(pieces: &Vec<Vec<char>>, sep: &[char]) -> (res: Vec<char>)
    ensures
        res@ == join(views(pieces@), sep@),
{
    let mut res: Vec<char> = Vec::new();
    let mut i: usize = 0;
    while i < pieces.len()
        invariant
            i <= pieces.len(),
            res@ == join(views(pieces@).take(i as int), sep@),
        decreases pieces.len() - i,
    {
        let ghost before = res@;
        if i > 0 {
            let mut k: usize = 0;
            while k < sep.len()
                invariant
                    k <= sep.len(),
                    res@ == before + sep@.take(k as int),
                decreases sep.len() - k,
            {
                res.push(sep[k]);
                k = k + 1;
                assert(res@ =~= before + sep@.take(k as int));
            }
            assert(sep@.take(sep@.len() as int) == sep@);
        }
        let ghost middle = res@;
        let piece = &pieces[i];
        let mut k: usize = 0;
        while k < piece.len()
            invariant
                k <= piece.len(),
                res@ == middle + piece@.take(k as int),
            decreases piece.len() - k,
        {
            res.push(piece[k]);
            k = k + 1;
            assert(res@ =~= middle + piece@.take(k as int));
        }
        assert(piece@.take(piece@.len() as int) == piece@);
        let ghost p = views(pieces@);
        assert(p.take(i + 1).drop_last() == p.take(i as int));
        assert(p.take(i + 1).last() == piece@);
        if i == 0 {
            assert(res@ =~= join(p.take(1), sep@));
        }
        i = i + 1;
    }
    assert(views(pieces@).take(pieces.len() as int) == views(pieces@));
    res
}

/// Appends the characters of `tail` to `v`.
pub fn extend_chars(v: &mut Vec<char>, tail: &[char])
    ensures
        final(v)@ == old(v)@ + tail@,
{
    let ghost start = v@;
    let mut k: usize = 0;
    while k < tail.len()
        invariant
            k <= tail.len(),
            v@ == start + tail@.take(k as int),
        decreases tail.len() - k,
    {
        v.push(tail[k]);
        k = k + 1;
        assert(v@ =~= start + tail@.take(k as int));
    }
    assert(tail@.take(tail@.len() as int) == tail@);
}


/// `char::is_whitespace`: the characters with the Unicode `White_Space` property.
pub open spec fn is_whitespace(c: char) -> bool {
    ||| c == ' '
    ||| ('\t' <= c && c <= '\r')
    ||| c == '\u{85}'
    ||| c == '\u{A0}'
    ||| c == '\u{1680}'
    ||| ('\u{2000}' <= c && c <= '\u{200A}')
    ||| c == '\u{2028}'
    ||| c == '\u{2029}'
    ||| c == '\u{202F}'
    ||| c == '\u{205F}'
    ||| c == '\u{3000}'
}

/// `s` without its leading whitespace.
pub open spec fn trim_start(s: Seq<char>) -> Seq<char>
    decreases s.len(),
{
    if s.len() > 0 && is_whitespace(s[0]) {
        trim_start(s.drop_first())
    } else {
        s
    }
}

/// `s` without its trailing whitespace.
pub open spec fn trim_end(s: Seq<char>) -> Seq<char>
    decreases s.len(),
{
    if s.len() > 0 && is_whitespace(s.last()) {
        trim_end(s.drop_last())
    } else {
        s
    }
}

/// `str::trim`: `s` without leading and trailing whitespace.
pub open spec fn trim(s: Seq<char>) -> Seq<char> {
    trim_end(trim_start(s))
}

/// Whether `c` is whitespace.
pub fn is_whitespace_exec(c: char) -> (b: bool)
    ensures
        b == is_whitespace(c),
{
    c == ' ' || ('\t' <= c && c <= '\r') || c == '\u{85}' || c == '\u{A0}' || c == '\u{1680}'
        || ('\u{2000}' <= c && c <= '\u{200A}') || c == '\u{2028}' || c == '\u{2029}'
        || c == '\u{202F}' || c == '\u{205F}' || c == '\u{3000}'
}

/// Removes leading and trailing whitespace.
pub fn trim_exec(s: &[char]) -> (res: Vec<char>)
    ensures
        res@ == trim(s@),
{
    let mut a: usize = 0;
    assert(s@.skip(0) == s@);
    while a < s.len() && is_whitespace_exec(s[a])
        invariant
            a <= s.len(),
            trim_start(s@.skip(a as int)) == trim_start(s@),
        decreases s.len() - a,
    {
        assert(s@.skip(a as int).drop_first() == s@.skip(a + 1));
        a = a + 1;
    }
    let mut b: usize = s.len();
    assert(s@.subrange(a as int, b as int) == s@.skip(a as int));
    while b > a && is_whitespace_exec(s[b - 1])
        invariant
            a <= b <= s.len(),
            trim_end(s@.subrange(a as int, b as int)) == trim(s@),
        decreases b,
    {
        assert(s@.subrange(a as int, b as int).drop_last() == s@.subrange(a as int, b - 1));
        b = b - 1;
    }
    let mut res: Vec<char> = Vec::new();
    let mut k: usize = a;
    while k < b
        invariant
            a <= k <= b <= s.len(),
            res@ == s@.subrange(a as int, k as int),
        decreases b - k,
    {
        res.push(s[k]);
        k = k + 1;
        assert(res@ == s@.subrange(a as int, k as int));
    }
    res
}

/// Whether `c` is an ASCII decimal digit.
pub open spec fn is_digit(c: char) -> bool {
    '0' <= c && c <= '9'
}

/// The value of a digit character.
pub open spec fn digit_value(c: char) -> nat {
    (c as u32 - '0' as u32) as nat
}

/// The value of a string of decimal digits (most significant first).
pub open spec fn digits_value(s: Seq<char>) -> nat
    decreases s.len(),
{
    if s.len() == 0 {
        0
    } else {
        digits_value(s.drop_last()) * 10 + digit_value(s.last())
    }
}

/// Whether every character of `s` is a decimal digit.
pub open spec fn all_digits(s: Seq<char>) -> bool {
    forall|i: int| 0 <= i < s.len() ==> is_digit(#[trigger] s[i])
}

/// `str::parse::<u64>`: an optional `+` followed by one or more decimal digits
/// whose value fits in a `u64`.
pub open spec fn parse_u64(s: Seq<char>) -> Option<u64> {
    let d = if s.len() > 0 && s[0] == '+' {
        s.drop_first()
    } else {
        s
    };
    if d.len() > 0 && all_digits(d) && digits_value(d) <= u64::MAX {
        Some(digits_value(d) as u64)
    } else {
        None
    }
}

proof fn lemma_digits_value_prefix(s: Seq<char>, i: int)
    requires
        0 <= i <= s.len(),
    ensures
        digits_value(s.take(i)) <= digits_value(s),
    decreases s.len() - i,
{
    if i < s.len() {
        lemma_digits_value_prefix(s, i + 1);
        assert(s.take(i + 1).drop_last() == s.take(i));
    } else {
        assert(s.take(i) == s);
    }
}

/// Parses a `u64` as `str::parse::<u64>` does.
pub fn parse_u64_exec(s: &[char]) -> (res: Option<u64>)
    ensures
        res == parse_u64(s@),
{
    let start: usize = if s.len() > 0 && s[0] == '+' { 1 } else { 0 };
    let ghost d = if s@.len() > 0 && s@[0] == '+' { s@.drop_first() } else { s@ };
    assert(d == s@.skip(start as int));
    if start >= s.len() {
        return None;
    }
    let mut value: u64 = 0;
    let mut k: usize = start;
    assert(d.take(0) =~= Seq::<char>::empty());
    while k < s.len()
        invariant
            start <= k <= s.len(),
            d == s@.skip(start as int),
            d == (if s@.len() > 0 && s@[0] == '+' { s@.drop_first() } else { s@ }),
            all_digits(d.take(k - start)),
            value == digits_value(d.take(k - start)),
        decreases s.len() - k,
    {
        let c = s[k];
        assert(d[k - start] == c);
        if !('0' <= c && c <= '9') {
            assert(!is_digit(d[k - start]));
            assert(!all_digits(d));
            assert(parse_u64(s@) is None);
            return None;
        }
        let dv = (c as u32 - '0' as u32) as u64;
        assert(d.take(k - start + 1).drop_last() == d.take(k - start));
        assert(d.take(k - start + 1).last() == c);
        if value > (u64::MAX - dv) / 10 {
            proof {
                lemma_digits_value_prefix(d, k - start + 1);
                assert(digits_value(d.take(k - start + 1)) == value * 10 + dv);
                assert(value * 10 + dv > u64::MAX) by (nonlinear_arith)
                    requires value > (u64::MAX - dv) / 10, dv <= 9;
                assert(digits_value(d) > u64::MAX);
                assert(parse_u64(s@) is None);
            }
            return None;
        }
        proof {
            assert(value * 10 + dv <= u64::MAX) by (nonlinear_arith)
                requires value <= (u64::MAX - dv) / 10, dv <= 9;
        }
        value = value * 10 + dv;
        k = k + 1;
        assert(all_digits(d.take(k - start)));
    }
    assert(d.take(k - start) == d);
    Some(value)
}

/// The character of a digit value below ten.
pub open spec fn digit_char(n: nat) -> char {
    ((n + '0' as u32) as u32) as char
}

/// The decimal representation of `n` (as `to_string` gives it).
pub open spec fn decimal(n: nat) -> Seq<char>
    decreases n,
{
    if n < 10 {
        seq![digit_char(n)]
    } else {
        decimal(n / 10).push(digit_char(n % 10))
    }
}

/// The character of a digit value below ten.
pub fn digit_char_exec(d: u8) -> (c: char)
    requires
        d < 10,
    ensures
        c == digit_char(d as nat),
{
    match d {
        0 => '0',
        1 => '1',
        2 => '2',
        3 => '3',
        4 => '4',
        5 => '5',
        6 => '6',
        7 => '7',
        8 => '8',
        _ => '9',
    }
}

/// The decimal representation of `n`.
pub fn decimal_exec(n: u64) -> (res: Vec<char>)
    ensures
        res@ == decimal(n as nat),
    decreases n,
{
    let c = digit_char_exec((n % 10) as u8);
    if n < 10 {
        vec![c]
    } else {
        let mut v = decimal_exec(n / 10);
        v.push(c);
        v
    }
}


/// Lexicographic order of character sequences by code point (the order of `String`).
pub open spec fn lex_le(a: Seq<char>, b: Seq<char>) -> bool
    decreases a.len(),
{
    if a.len() == 0 {
        true
    } else if b.len() == 0 {
        false
    } else if a[0] != b[0] {
        a[0] < b[0]
    } else {
        lex_le(a.drop_first(), b.drop_first())
    }
}

/// The lexicographic order as a relation.
pub open spec fn lex_order() -> spec_fn(Seq<char>, Seq<char>) -> bool {
    |a: Seq<char>, b: Seq<char>| lex_le(a, b)
}

proof fn lemma_lex_reflexive(a: Seq<char>)
    ensures
        lex_le(a, a),
    decreases a.len(),
{
    if a.len() > 0 {
        lemma_lex_reflexive(a.drop_first());
    }
}

proof fn lemma_lex_antisymmetric(a: Seq<char>, b: Seq<char>)
    requires
        lex_le(a, b),
        lex_le(b, a),
    ensures
        a == b,
    decreases a.len(),
{
    if a.len() > 0 && b.len() > 0 {
        lemma_lex_antisymmetric(a.drop_first(), b.drop_first());
        assert(a =~= seq![a[0]] + a.drop_first());
        assert(b =~= seq![b[0]] + b.drop_first());
    }
}

proof fn lemma_lex_transitive(a: Seq<char>, b: Seq<char>, c: Seq<char>)
    requires
        lex_le(a, b),
        lex_le(b, c),
    ensures
        lex_le(a, c),
    decreases a.len(),
{
    if a.len() > 0 && b.len() > 0 && c.len() > 0 {
        if a[0] == b[0] && b[0] == c[0] {
            lemma_lex_transitive(a.drop_first(), b.drop_first(), c.drop_first());
        }
    }
}

proof fn lemma_lex_total(a: Seq<char>, b: Seq<char>)
    ensures
        lex_le(a, b) || lex_le(b, a),
    decreases a.len(),
{
    if a.len() > 0 && b.len() > 0 && a[0] == b[0] {
        lemma_lex_total(a.drop_first(), b.drop_first());
    }
}

/// The lexicographic order is a total order.
pub proof fn lemma_lex_total_ordering()
    ensures
        total_ordering(lex_order()),
{
    assert forall|a: Seq<char>| #[trigger] lex_order()(a, a) by {
        lemma_lex_reflexive(a);
    }
    assert forall|a: Seq<char>, b: Seq<char>| #[trigger] lex_order()(a, b) && #[trigger] lex_order()(b, a) implies a == b by {
        lemma_lex_antisymmetric(a, b);
    }
    assert forall|a: Seq<char>, b: Seq<char>, c: Seq<char>| #[trigger] lex_order()(a, b) && #[trigger] lex_order()(b, c) implies lex_order()(a, c) by {
        lemma_lex_transitive(a, b, c);
    }
    assert forall|a: Seq<char>, b: Seq<char>| #[trigger] lex_order()(a, b) || #[trigger] lex_order()(b, a) by {
        lemma_lex_total(a, b);
    }
}

/// Compares two character sequences lexicographically.
pub fn lex_le_exec(a: &[char], b: &[char]) -> (r: bool)
    ensures
        r == lex_le(a@, b@),
{
    let mut i: usize = 0;
    assert(a@.skip(0) == a@ && b@.skip(0) == b@);
    while i < a.len() && i < b.len()
        invariant
            i <= a.len(),
            i <= b.len(),
            lex_le(a@, b@) == lex_le(a@.skip(i as int), b@.skip(i as int)),
        decreases a.len() - i,
    {
        assert(a@.skip(i as int)[0] == a@[i as int]);
        assert(b@.skip(i as int)[0] == b@[i as int]);
        if a[i] != b[i] {
            return a[i] < b[i];
        }
        assert(a@.skip(i as int).drop_first() == a@.skip(i + 1));
        assert(b@.skip(i as int).drop_first() == b@.skip(i + 1));
        i = i + 1;
    }
    a.len() <= b.len()
}

/// Sorts strings in lexicographic order (`slice::sort` on `String`s).
pub fn sort_strings(v: Vec<Vec<char>>) -> (res: Vec<Vec<char>>)
    ensures
        views(res@) == views(v@).sort_by(lex_order()),
{
    broadcast use vstd::seq_lib::group_to_multiset_ensures;
    proof {
        lemma_lex_total_ordering();
    }
    let ghost input = views(v@);
    let mut res: Vec<Vec<char>> = Vec::new();
    let mut i: usize = 0;
    for x in it: v
        invariant
            total_ordering(lex_order()),
            input == views(it.seq()),
            sorted_by(views(res@), lex_order()),
            views(res@).to_multiset() == input.take(it.index() as int).to_multiset(),
    {
        let ghost k = it.index();
        assert(input[k] == x@);
        let mut p: usize = res.len();
        while p > 0 && !lex_le_exec(&res[p - 1], &x)
            invariant
                p <= res.len(),
                total_ordering(lex_order()),
                forall|j: int| p <= j < res.len() ==> !lex_le(#[trigger] views(res@)[j], x@),
            decreases p,
        {
            p = p - 1;
        }
        let ghost before = views(res@);
        assert(p > 0 ==> lex_le(before[p - 1], x@));
        assert forall|j: int| 0 <= j < p implies lex_le(#[trigger] before[j], x@) by {
            if j < p - 1 {
                assert(lex_order()(before[j], before[p - 1]));
                lemma_lex_transitive(before[j], before[p - 1], x@);
            }
        }
        assert forall|j: int| p <= j < before.len() implies lex_le(x@, #[trigger] before[j]) by {
            lemma_lex_total(x@, before[j]);
        }
        res.insert(p, x);
        assert(views(res@) =~= before.insert(p as int, x@));
        assert(input.take(k + 1) =~= input.take(k).push(x@));
        proof {
            vstd::seq_lib::to_multiset_insert(before, p as int, x@);
            vstd::seq_lib::to_multiset_build(input.take(k), x@);
        }
        assert(sorted_by(views(res@), lex_order())) by {
            assert forall|a: int, b: int| 0 <= a < b < views(res@).len() implies #[trigger] lex_order()(views(res@)[a], views(res@)[b]) by {
                let r = views(res@);
                if a < p && b == p {
                } else if a == p && b > p {
                } else if a < p && b > p {
                    assert(r[b] == before[b - 1]);
                    assert(lex_le(before[a], x@));
                    assert(lex_le(x@, before[b - 1]));
                    lemma_lex_transitive(before[a], x@, before[b - 1]);
                } else if b < p {
                    assert(lex_order()(before[a], before[b]));
                } else {
                    assert(r[a] == before[a - 1] && r[b] == before[b - 1]);
                    assert(lex_order()(before[a - 1], before[b - 1]));
                }
            }
        }
    }
    proof {
        assert(input.take(input.len() as int) == input);
        input.lemma_sort_by_ensures(lex_order());
        vstd::seq_lib::lemma_sorted_unique(views(res@), input.sort_by(lex_order()), lex_order());
    }
    res
}


/// A name and a value.
pub type Entry = (Seq<char>, Seq<char>);

/// The views of a sequence of pairs of character vectors.
pub open spec fn entry_views(v: Seq<(Vec<char>, Vec<char>)>) -> Seq<Entry> {
    v.map_values(|e: (Vec<char>, Vec<char>)| (e.0@, e.1@))
}

/// Inserts `x` into `sorted` after every entry whose name is not above the name of `x`.
pub open spec fn insert_by_name(sorted: Seq<Entry>, x: Entry) -> Seq<Entry>
    decreases sorted.len(),
{
    if sorted.len() == 0 {
        seq![x]
    } else if lex_le(sorted.last().0, x.0) {
        sorted.push(x)
    } else {
        insert_by_name(sorted.drop_last(), x).push(sorted.last())
    }
}

/// The entries stably sorted by name (`slice::sort_by` comparing names).
pub open spec fn sort_by_name(s: Seq<Entry>) -> Seq<Entry>
    decreases s.len(),
{
    if s.len() == 0 {
        Seq::empty()
    } else {
        insert_by_name(sort_by_name(s.drop_last()), s.last())
    }
}

proof fn lemma_insert_by_name_at(sorted: Seq<Entry>, x: Entry, p: int)
    requires
        0 <= p <= sorted.len(),
        p > 0 ==> lex_le(sorted[p - 1].0, x.0),
        forall|j: int| p <= j < sorted.len() ==> !lex_le(#[trigger] sorted[j].0, x.0),
    ensures
        insert_by_name(sorted, x) == sorted.insert(p, x),
    decreases sorted.len(),
{
    if sorted.len() == 0 {
        assert(sorted.insert(p, x) =~= seq![x]);
    } else if p == sorted.len() {
        assert(sorted.insert(p, x) =~= sorted.push(x));
    } else {
        assert(!lex_le(sorted.last().0, x.0));
        lemma_insert_by_name_at(sorted.drop_last(), x, p);
        assert(sorted.insert(p, x) =~= sorted.drop_last().insert(p, x).push(sorted.last()));
    }
}

/// Sorts entries by name, keeping entries of equal names in their order.
pub fn sort_entries_by_name(v: Vec<(Vec<char>, Vec<char>)>) -> (res: Vec<(Vec<char>, Vec<char>)>)
    ensures
        entry_views(res@) == sort_by_name(entry_views(v@)),
{
    let ghost input = entry_views(v@);
    let mut res: Vec<(Vec<char>, Vec<char>)> = Vec::new();
    for x in it: v
        invariant
            input == entry_views(it.seq()),
            entry_views(res@) == sort_by_name(input.take(it.index() as int)),
    {
        let ghost k = it.index();
        assert(input[k] == (x.0@, x.1@));
        let mut p: usize = res.len();
        while p > 0 && !lex_le_exec(&res[p - 1].0, &x.0)
            invariant
                p <= res.len(),
                forall|j: int| p <= j < res.len() ==> !lex_le(#[trigger] entry_views(res@)[j].0, x.0@),
            decreases p,
        {
            p = p - 1;
        }
        let ghost before = entry_views(res@);
        proof {
            lemma_insert_by_name_at(before, (x.0@, x.1@), p as int);
            assert(input.take(k + 1).drop_last() == input.take(k));
        }
        res.insert(p, x);
        assert(entry_views(res@) =~= before.insert(p as int, (x.0@, x.1@)));
    }
    assert(input.take(input.len() as int) == input);
    res
}


/// The lower-case form of a string, as `str::to_lowercase` gives it.
pub uninterp spec fn unicode_lowercase(s: Seq<char>) -> Seq<char>;

/// `str::to_lowercase`: the result is named `unicode_lowercase` (it follows the
/// Unicode tables, which no short statement covers).
#[verifier::external_body]
pub(crate) fn to_lowercase(s: &str) -> (r: String)
    ensures
        r@ == unicode_lowercase(s@),
{
    s.to_lowercase()
}

/// A string holding one character.
pub fn string_of_char(c: char) -> (s: String)
    ensures
        s@ == seq![c],
{
    let mut s = String::new();
    push_char(&mut s, c);
    s
}


/// A vector holding one character.
pub fn one_char(c: char) -> (v: Vec<char>)
    ensures
        v@ == seq![c],
{
    let mut v: Vec<char> = Vec::new();
    v.push(c);
    v
}


/// Appends the characters of `s` to `v`.
pub fn push_str_chars(v: &mut Vec<char>, s: &str)
    ensures
        final(v)@ == old(v)@ + s@,
{
    let c = chars_of(s);
    extend_chars(v, c.as_slice());
}

/// The UTF-8 encoding takes at most four bytes per character.
pub proof fn lemma_utf8_len_bound(s: Seq<char>)
    ensures
        vstd::utf8::encode_utf8(s).len() <= 4 * s.len(),
    decreases s.len(),
{
    if s.len() > 0 {
        lemma_utf8_len_bound(s.drop_first());
    }
}

/// The UTF-8 encoding of two strings one after the other is their encodings one
/// after the other.
pub proof fn lemma_encode_utf8_concat(a: Seq<char>, b: Seq<char>)
    ensures
        vstd::utf8::encode_utf8(a + b) == vstd::utf8::encode_utf8(a) + vstd::utf8::encode_utf8(b),
    decreases a.len(),
{
    if a.len() == 0 {
        assert(a + b =~= b);
        assert(vstd::utf8::encode_utf8(a) =~= Seq::<u8>::empty());
        assert(Seq::<u8>::empty() + vstd::utf8::encode_utf8(b) =~= vstd::utf8::encode_utf8(b));
    } else {
        assert((a + b).drop_first() =~= a.drop_first() + b);
        assert((a + b)[0] == a[0]);
        lemma_encode_utf8_concat(a.drop_first(), b);
        let e0 = vstd::utf8::encode_scalar(a[0] as u32);
        assert(e0 + (vstd::utf8::encode_utf8(a.drop_first()) + vstd::utf8::encode_utf8(b))
            =~= (e0 + vstd::utf8::encode_utf8(a.drop_first())) + vstd::utf8::encode_utf8(b));
    }
}

/// `s` without its leading `c`s (`str::trim_start_matches` with a character).
pub open spec fn trim_leading(s: Seq<char>, c: char) -> Seq<char>
    decreases s.len(),
{
    if s.len() > 0 && s[0] == c {
        trim_leading(s.drop_first(), c)
    } else {
        s
    }
}

/// Removes the leading `c`s.
pub fn trim_leading_exec(s: &[char], c: char) -> (res: Vec<char>)
    ensures
        res@ == trim_leading(s@, c),
{
    let mut a: usize = 0;
    assert(s@.skip(0) == s@);
    while a < s.len() && s[a] == c
        invariant
            a <= s.len(),
            trim_leading(s@.skip(a as int), c) == trim_leading(s@, c),
        decreases s.len() - a,
    {
        assert(s@.skip(a as int).drop_first() == s@.skip(a + 1));
        a = a + 1;
    }
    let mut res: Vec<char> = Vec::new();
    let mut k: usize = a;
    while k < s.len()
        invariant
            a <= k <= s.len(),
            res@ == s@.subrange(a as int, k as int),
        decreases s.len() - k,
    {
        res.push(s[k]);
        k = k + 1;
        assert(res@ == s@.subrange(a as int, k as int));
    }
    assert(res@ == s@.skip(a as int));
    res
}


/// Whether two character sequences are equal.
pub fn chars_eq(a: &[char], b: &[char]) -> (r: bool)
    ensures
        r == (a@ == b@),
{
    if a.len() != b.len() {
        return false;
    }
    let mut i: usize = 0;
    while i < a.len()
        invariant
            a.len() == b.len(),
            i <= a.len(),
            forall|j: int| 0 <= j < i ==> a@[j] == b@[j],
        decreases a.len() - i,
    {
        if a[i] != b[i] {
            return false;
        }
        i = i + 1;
    }
    assert(a@ =~= b@);
    true
}

/// The characters of `s` from index `from` on.
pub fn skip_chars(s: &[char], from: usize) -> (res: Vec<char>)
    requires
        from <= s.len(),
    ensures
        res@ == s@.skip(from as int),
{
    let mut res: Vec<char> = Vec::new();
    let mut k: usize = from;
    while k < s.len()
        invariant
            from <= k <= s.len(),
            res@ == s@.subrange(from as int, k as int),
        decreases s.len() - k,
    {
        res.push(s[k]);
        k = k + 1;
        assert(res@ == s@.subrange(from as int, k as int));
    }
    res
}

/// The view of an optional character vector.
pub open spec fn opt_view(o: Option<Vec<char>>) -> Option<Seq<char>> {
    match o {
        Some(v) => Some(v@),
        None => None,
    }
}

/// The views of a sequence of strings.
pub open spec fn string_views(v: Seq<String>) -> Seq<Seq<char>> {
    v.map_values(|s: String| s@)
}

/// The strings made of the given pieces.
pub fn strings_of(pieces: &Vec<Vec<char>>) -> (res: Vec<String>)
    ensures
        string_views(res@) == views(pieces@),
{
    let mut res: Vec<String> = Vec::new();
    let mut i: usize = 0;
    while i < pieces.len()
        invariant
            i <= pieces.len(),
            string_views(res@) == views(pieces@).take(i as int),
        decreases pieces.len() - i,
    {
        let ghost before = string_views(res@);
        let s = string_of(pieces[i].as_slice());
        res.push(s);
        assert(string_views(res@) == before.push(views(pieces@)[i as int]));
        i = i + 1;
        assert(string_views(res@) =~= views(pieces@).take(i as int));
    }
    assert(views(pieces@).take(pieces.len() as int) =~= views(pieces@));
    res
}


/// Mapping two sequences that hold the same elements gives sequences that hold
/// the same elements.
pub proof fn lemma_map_values_multiset<A, B>(s1: Seq<A>, s2: Seq<A>, f: spec_fn(A) -> B)
    requires
        s1.to_multiset() == s2.to_multiset(),
    ensures
        s1.map_values(f).to_multiset() == s2.map_values(f).to_multiset(),
    decreases s1.len(),
{
    broadcast use vstd::seq_lib::group_to_multiset_ensures;
    broadcast use vstd::multiset::group_multiset_axioms;

    assert(s1.to_multiset().len() == s1.len());
    assert(s2.to_multiset().len() == s2.len());
    if s1.len() == 0 {
        assert(s2.len() == 0);
        assert(s1.map_values(f) =~= Seq::<B>::empty());
        assert(s2.map_values(f) =~= Seq::<B>::empty());
    } else {
        let x = s1.last();
        assert(s1.to_multiset().count(x) > 0) by {
            assert(s1.contains(x)) by {
                assert(s1[s1.len() - 1] == x);
            }
        }
        assert(s2.contains(x));
        let j = choose|j: int| 0 <= j < s2.len() && s2[j] == x;
        let r1 = s1.drop_last();
        let r2 = s2.remove(j);
        assert(r1 =~= s1.remove(s1.len() - 1));
        assert(r1.to_multiset() == s1.to_multiset().remove(x));
        assert(r2.to_multiset() == s2.to_multiset().remove(x));
        lemma_map_values_multiset(r1, r2, f);
        assert(s1.map_values(f) =~= r1.map_values(f).push(f(x)));
        assert(r2.map_values(f) =~= s2.map_values(f).remove(j));
        assert(s2.map_values(f)[j] == f(x));
        assert(s2.map_values(f).remove(j).to_multiset() == s2.map_values(f).to_multiset().remove(f(x)));
        assert(s2.map_values(f).contains(f(x))) by {
            assert(s2.map_values(f)[j] == f(x));
        }
        assert(s2.map_values(f).to_multiset().remove(f(x)).insert(f(x)) =~= s2.map_values(f).to_multiset());
    }
}


/// Whether entries are in order of name.
pub open spec fn sorted_by_name(s: Seq<Entry>) -> bool {
    forall|i: int, j: int| 0 <= i < j < s.len() ==> lex_le(#[trigger] s[i].0, #[trigger] s[j].0)
}

/// Entries ordered by name, then by value.
pub open spec fn entry_le(a: Entry, b: Entry) -> bool {
    if a.0 != b.0 {
        lex_le(a.0, b.0)
    } else {
        lex_le(a.1, b.1)
    }
}

/// The order of entries by name, then value, as a relation.
pub open spec fn entry_order() -> spec_fn(Entry, Entry) -> bool {
    |a: Entry, b: Entry| entry_le(a, b)
}

/// Ordering entries by name, then value, is a total order.
pub proof fn lemma_entry_total_ordering()
    ensures
        total_ordering(entry_order()),
{
    assert forall|a: Entry| #[trigger] entry_order()(a, a) by {
        lemma_lex_reflexive(a.1);
    }
    assert forall|a: Entry, b: Entry| #[trigger] entry_order()(a, b) && #[trigger] entry_order()(b, a) implies a == b by {
        if a.0 != b.0 {
            lemma_lex_antisymmetric(a.0, b.0);
        } else {
            lemma_lex_antisymmetric(a.1, b.1);
        }
    }
    assert forall|a: Entry, b: Entry, c: Entry| #[trigger] entry_order()(a, b) && #[trigger] entry_order()(b, c) implies entry_order()(a, c) by {
        if a.0 != b.0 && b.0 != c.0 {
            lemma_lex_transitive(a.0, b.0, c.0);
            if a.0 == c.0 {
                lemma_lex_antisymmetric(a.0, b.0);
            }
        } else if a.0 != b.0 {
            assert(b.0 == c.0);
        } else if b.0 != c.0 {
            assert(a.0 == b.0);
        } else {
            lemma_lex_transitive(a.1, b.1, c.1);
        }
    }
    assert forall|a: Entry, b: Entry| #[trigger] entry_order()(a, b) || #[trigger] entry_order()(b, a) by {
        lemma_lex_total(a.0, b.0);
        lemma_lex_total(a.1, b.1);
    }
}

/// Inserting by name keeps the entries in order, adds exactly the new entry, and
/// keeps names distinct when the new name is new.
pub proof fn lemma_insert_by_name(sorted: Seq<Entry>, x: Entry)
    requires
        sorted_by_name(sorted),
    ensures
        insert_by_name(sorted, x).to_multiset() == sorted.to_multiset().insert(x),
        sorted_by_name(insert_by_name(sorted, x)),
        crate::string_map::names_distinct(sorted) && (forall|i: int| 0 <= i < sorted.len() ==> sorted[i].0 != x.0)
            ==> crate::string_map::names_distinct(insert_by_name(sorted, x)),
    decreases sorted.len(),
{
    broadcast use vstd::seq_lib::group_to_multiset_ensures;
    broadcast use vstd::multiset::group_multiset_axioms;

    let r = insert_by_name(sorted, x);
    if sorted.len() == 0 {
        assert(seq![x] =~= Seq::<Entry>::empty().push(x));
        assert(sorted =~= Seq::<Entry>::empty());
    } else if lex_le(sorted.last().0, x.0) {
        assert forall|i: int, j: int| 0 <= i < j < r.len() implies lex_le(#[trigger] r[i].0, #[trigger] r[j].0) by {
            if j == sorted.len() {
                if i < sorted.len() - 1 {
                    lemma_lex_transitive(sorted[i].0, sorted.last().0, x.0);
                }
            }
        }
    } else {
        let rest = sorted.drop_last();
        let last = sorted.last();
        assert(sorted_by_name(rest));
        lemma_insert_by_name(rest, x);
        let inner = insert_by_name(rest, x);
        assert(sorted =~= rest.push(last));
        lemma_lex_total(last.0, x.0);
        assert forall|k: int| 0 <= k < inner.len() implies lex_le(#[trigger] inner[k].0, last.0) by {
            assert(inner.to_multiset().count(inner[k]) > 0) by {
                assert(inner.contains(inner[k]));
            }
            if inner[k] != x {
                assert(rest.to_multiset().count(inner[k]) > 0);
                assert(rest.contains(inner[k]));
                let m = choose|m: int| 0 <= m < rest.len() && rest[m] == inner[k];
                assert(lex_le(sorted[m].0, sorted[sorted.len() - 1].0));
            }
        }
        assert forall|i: int, j: int| 0 <= i < j < r.len() implies lex_le(#[trigger] r[i].0, #[trigger] r[j].0) by {
            if j == inner.len() {
                assert(r[i] == inner[i]);
            } else {
                assert(r[i] == inner[i] && r[j] == inner[j]);
            }
        }
        if crate::string_map::names_distinct(sorted) && (forall|i: int| 0 <= i < sorted.len() ==> sorted[i].0 != x.0) {
            assert(crate::string_map::names_distinct(rest));
            assert forall|k: int| 0 <= k < inner.len() implies (#[trigger] inner[k]).0 != last.0 by {
                assert(inner.to_multiset().count(inner[k]) > 0) by {
                    assert(inner.contains(inner[k]));
                }
                if inner[k] != x {
                    assert(rest.to_multiset().count(inner[k]) > 0);
                    assert(rest.contains(inner[k]));
                    let m = choose|m: int| 0 <= m < rest.len() && rest[m] == inner[k];
                    assert(sorted[m].0 != sorted[sorted.len() - 1].0);
                } else {
                    assert(sorted[sorted.len() - 1].0 != x.0);
                }
            }
        }
    }
}

/// Sorting by name keeps the same entries, orders them by name, and keeps
/// distinct names distinct.
pub proof fn lemma_sort_by_name(s: Seq<Entry>)
    ensures
        sort_by_name(s).to_multiset() == s.to_multiset(),
        sorted_by_name(sort_by_name(s)),
        crate::string_map::names_distinct(s) ==> crate::string_map::names_distinct(sort_by_name(s)),
    decreases s.len(),
{
    broadcast use vstd::seq_lib::group_to_multiset_ensures;
    broadcast use vstd::multiset::group_multiset_axioms;

    if s.len() == 0 {
        assert(sort_by_name(s) =~= s);
    } else {
        let rest = s.drop_last();
        let x = s.last();
        lemma_sort_by_name(rest);
        let sr = sort_by_name(rest);
        lemma_insert_by_name(sr, x);
        assert(s =~= rest.push(x));
        if crate::string_map::names_distinct(s) {
            assert(crate::string_map::names_distinct(rest));
            assert forall|i: int| 0 <= i < sr.len() implies (#[trigger] sr[i]).0 != x.0 by {
                assert(sr.to_multiset().count(sr[i]) > 0) by {
                    assert(sr.contains(sr[i]));
                }
                assert(rest.contains(sr[i]));
                let m = choose|m: int| 0 <= m < rest.len() && rest[m] == sr[i];
                assert(s[m].0 != s[s.len() - 1].0);
            }
        }
    }
}

/// Entries with distinct names that are in order of name are in the total order of
/// entries.
pub proof fn lemma_sorted_by_name_distinct(s: Seq<Entry>)
    requires
        sorted_by_name(s),
        crate::string_map::names_distinct(s),
    ensures
        sorted_by(s, entry_order()),
{
    assert forall|i: int, j: int| 0 <= i < j < s.len() implies #[trigger] entry_order()(s[i], s[j]) by {
        assert(lex_le(s[i].0, s[j].0));
    }
}


/// Characters that cannot start the pattern are carried into the current piece.
pub proof fn lemma_split_from_skip(cur: Seq<char>, a: Seq<char>, rest: Seq<char>, pat: Seq<char>)
    requires
        pat.len() > 0,
        forall|i: int| 0 <= i < a.len() ==> a[i] != pat[0],
    ensures
        split_from(cur, a + rest, pat) == split_from(cur + a, rest, pat),
    decreases a.len(),
{
    if a.len() > 0 {
        let s = a + rest;
        assert(s[0] == a[0]);
        assert(!occurs_at(s, 0, pat)) by {
            if occurs_at(s, 0, pat) {
                assert(s.subrange(0, pat.len() as int)[0] == pat[0]);
            }
        }
        assert(s.drop_first() =~= a.drop_first() + rest);
        lemma_split_from_skip(cur.push(a[0]), a.drop_first(), rest, pat);
        assert(cur.push(a[0]) + a.drop_first() =~= cur + a);
    } else {
        assert(a + rest =~= rest);
        assert(cur + a =~= cur);
    }
}

/// Splitting a string without the pattern's first character gives that string.
pub proof fn lemma_split_plain(a: Seq<char>, pat: Seq<char>)
    requires
        pat.len() > 0,
        forall|i: int| 0 <= i < a.len() ==> a[i] != pat[0],
    ensures
        split(a, pat) == seq![a],
{
    lemma_split_from_skip(Seq::empty(), a, Seq::empty(), pat);
    assert(a + Seq::<char>::empty() =~= a);
    assert(Seq::<char>::empty() + a =~= a);
}

/// Splitting at an occurrence of the pattern that follows a plain prefix.
pub proof fn lemma_split_at_pattern(a: Seq<char>, b: Seq<char>, pat: Seq<char>)
    requires
        pat.len() > 0,
        forall|i: int| 0 <= i < a.len() ==> a[i] != pat[0],
    ensures
        split(a + pat + b, pat) == seq![a] + split(b, pat),
{
    lemma_split_from_skip(Seq::empty(), a, pat + b, pat);
    assert(a + pat + b =~= a + (pat + b));
    assert(Seq::<char>::empty() + a =~= a);
    let r = pat + b;
    assert(r.subrange(0, pat.len() as int) =~= pat);
    assert(occurs_at(r, 0, pat));
    assert(r.skip(pat.len() as int) =~= b);
}

/// The pattern occurs nowhere in `s` before index `n`.
pub open spec fn free_before(s: Seq<char>, n: int, pat: Seq<char>) -> bool {
    forall|i: int| 0 <= i < n ==> !#[trigger] occurs_at(s, i, pat)
}

/// A prefix in which no occurrence of the pattern starts is carried into the
/// current piece.
pub proof fn lemma_split_from_free(cur: Seq<char>, a: Seq<char>, rest: Seq<char>, pat: Seq<char>)
    requires
        pat.len() > 0,
        free_before(a + rest, a.len() as int, pat),
    ensures
        split_from(cur, a + rest, pat) == split_from(cur + a, rest, pat),
    decreases a.len(),
{
    if a.len() > 0 {
        let s = a + rest;
        assert(!occurs_at(s, 0, pat));
        let t = a.drop_first() + rest;
        assert(s.drop_first() =~= t);
        assert forall|i: int| 0 <= i < a.drop_first().len() implies !#[trigger] occurs_at(t, i, pat) by {
            if occurs_at(t, i, pat) {
                assert(s.subrange(i + 1, i + 1 + pat.len()) =~= t.subrange(i, i + pat.len()));
                assert(occurs_at(s, i + 1, pat));
            }
        }
        lemma_split_from_free(cur.push(a[0]), a.drop_first(), rest, pat);
        assert(cur.push(a[0]) + a.drop_first() =~= cur + a);
    } else {
        assert(a + rest =~= rest);
        assert(cur + a =~= cur);
    }
}

/// Splitting at the first occurrence of the pattern, before which it does not
/// occur.
pub proof fn lemma_split_at_free(a: Seq<char>, b: Seq<char>, pat: Seq<char>)
    requires
        pat.len() > 0,
        free_before(a + pat + b, a.len() as int, pat),
    ensures
        split(a + pat + b, pat) == seq![a] + split(b, pat),
{
    assert(a + pat + b =~= a + (pat + b));
    lemma_split_from_free(Seq::empty(), a, pat + b, pat);
    assert(Seq::<char>::empty() + a =~= a);
    let r = pat + b;
    assert(r.subrange(0, pat.len() as int) =~= pat);
    assert(r.skip(pat.len() as int) =~= b);
}

/// Splitting a string in which the pattern does not occur gives that string.
pub proof fn lemma_split_free(a: Seq<char>, pat: Seq<char>)
    requires
        pat.len() > 0,
        free_before(a, a.len() as int, pat),
    ensures
        split(a, pat) == seq![a],
{
    assert(a + Seq::<char>::empty() =~= a);
    lemma_split_from_free(Seq::empty(), a, Seq::empty(), pat);
    assert(Seq::<char>::empty() + a =~= a);
}

/// Joining pieces takes the first piece, then the separator and the rest.
pub proof fn lemma_join_first(p: Seq<Seq<char>>, sep: Seq<char>)
    requires
        p.len() >= 2,
    ensures
        join(p, sep) == p[0] + sep + join(p.drop_first(), sep),
    decreases p.len(),
{
    if p.len() == 2 {
        assert(p.drop_last() =~= seq![p[0]]);
        assert(p.drop_first() =~= seq![p[1]]);
        assert(join(p.drop_last(), sep) == p[0]);
        assert(join(p.drop_first(), sep) == p[1]);
    } else {
        let q = p.drop_last();
        let r = p.drop_first();
        lemma_join_first(q, sep);
        assert(q.drop_first() =~= r.drop_last());
        assert(r.last() == p.last());
        assert(q[0] == p[0]);
        assert(join(p, sep) == join(q, sep) + sep + p.last());
        assert(join(r, sep) == join(r.drop_last(), sep) + sep + r.last());
        assert(join(p, sep) =~= p[0] + sep + join(r, sep));
    }
}

/// Joining pieces without the separator's character and splitting the result at
/// it gives the pieces back.
pub proof fn lemma_split_join(p: Seq<Seq<char>>, c: char)
    requires
        p.len() >= 1,
        forall|j: int| 0 <= j < p.len() ==> !(#[trigger] p[j]).contains(c),
    ensures
        split(join(p, seq![c]), seq![c]) == p,
    decreases p.len(),
{
    let pat = seq![c];
    if p.len() == 1 {
        assert forall|i: int| 0 <= i < p[0].len() implies p[0][i] != pat[0] by {
            if p[0][i] == c {
                assert(p[0].contains(c));
            }
        }
        lemma_split_plain(p[0], pat);
        assert(p =~= seq![p[0]]);
    } else {
        lemma_join_first(p, pat);
        assert forall|i: int| 0 <= i < p[0].len() implies p[0][i] != pat[0] by {
            if p[0][i] == c {
                assert(p[0].contains(c));
            }
        }
        lemma_split_at_pattern(p[0], join(p.drop_first(), pat), pat);
        assert forall|j: int| 0 <= j < p.drop_first().len() implies !(#[trigger] p.drop_first()[j]).contains(c) by {
            assert(p.drop_first()[j] == p[j + 1]);
        }
        lemma_split_join(p.drop_first(), c);
        assert(seq![p[0]] + p.drop_first() =~= p);
    }
}

/// `split_once` of a name without the character, the character and a value
/// gives the name and the value.
pub proof fn lemma_split_once_after(name: Seq<char>, c: char, v: Seq<char>)
    requires
        !name.contains(c),
    ensures
        split_once(name + seq![c] + v, c) == Some((name, v)),
{
    reveal(first_index);
    let s = name + seq![c] + v;
    let n = name.len() as int;
    assert(s[n] == c);
    assert(exists|i: int| 0 <= i < s.len() && s[i] == c);
    let k = choose|i: int| 0 <= i < s.len() && s[i] == c && forall|j: int| 0 <= j < i ==> s[j] != c;
    assert(0 <= k < s.len() && s[k] == c && forall|j: int| 0 <= j < k ==> s[j] != c) by {
        assert(forall|j: int| 0 <= j < n ==> s[j] != c) by {
            assert forall|j: int| 0 <= j < n implies s[j] != c by {
                assert(s[j] == name[j]);
                if name[j] == c {
                    assert(name.contains(c));
                }
            }
        }
    }
    if k < n {
        assert(s[k] == name[k]);
        assert(name.contains(c));
    }
    assert(k == n);
    assert(s.take(n) =~= name);
    assert(s.skip(n + 1) =~= v);
}

/// Splitting always gives at least one piece.
pub proof fn lemma_split_nonempty(s: Seq<char>, pat: Seq<char>)
    ensures
        split(s, pat).len() >= 1,
{
    lemma_split_from_nonempty(Seq::empty(), s, pat);
}

proof fn lemma_split_from_nonempty(cur: Seq<char>, rest: Seq<char>, pat: Seq<char>)
    ensures
        split_from(cur, rest, pat).len() >= 1,
    decreases rest.len(),
{
    if rest.len() == 0 {
    } else if pat.len() > 0 && occurs_at(rest, 0, pat) {
        lemma_split_from_nonempty(Seq::empty(), rest.skip(pat.len() as int), pat);
    } else {
        lemma_split_from_nonempty(cur.push(rest[0]), rest.drop_first(), pat);
    }
}

/// The first piece of a split at a single character is the text before the first
/// occurrence of that character (all of it when there is none).
pub proof fn lemma_split_first_piece(s: Seq<char>, c: char) -> (k: int)
    ensures
        0 <= k <= s.len(),
        split(s, seq![c])[0] == s.take(k),
        forall|j: int| 0 <= j < k ==> s[j] != c,
        k == s.len() || s[k] == c,
{
    assert(Seq::<char>::empty() + s.take(0) =~= s.take(0));
    lemma_split_from_first_piece(Seq::empty(), s, c)
}

proof fn lemma_split_from_first_piece(cur: Seq<char>, rest: Seq<char>, c: char) -> (k: int)
    ensures
        0 <= k <= rest.len(),
        split_from(cur, rest, seq![c])[0] == cur + rest.take(k),
        forall|j: int| 0 <= j < k ==> rest[j] != c,
        k == rest.len() || rest[k] == c,
    decreases rest.len(),
{
    let pat = seq![c];
    if rest.len() == 0 {
        assert(cur + rest.take(0) =~= cur);
        0
    } else if occurs_at(rest, 0, pat) {
        assert(rest.subrange(0, 1)[0] == rest[0]);
        assert(cur + rest.take(0) =~= cur);
        0
    } else {
        assert(rest[0] != c) by {
            if rest[0] == c {
                assert(rest.subrange(0, 1) =~= pat);
            }
        }
        let k1 = lemma_split_from_first_piece(cur.push(rest[0]), rest.drop_first(), c);
        assert(cur.push(rest[0]) + rest.drop_first().take(k1) =~= cur + rest.take(k1 + 1));
        assert forall|j: int| 0 <= j < k1 + 1 implies rest[j] != c by {
            if j > 0 {
                assert(rest[j] == rest.drop_first()[j - 1]);
            }
        }
        if k1 < rest.drop_first().len() {
            assert(rest[k1 + 1] == rest.drop_first()[k1]);
        }
        k1 + 1
    }
}

/// The decimal representation of a number is made of digits and reads back as the
/// number.
pub proof fn lemma_decimal(n: nat)
    ensures
        decimal(n).len() >= 1,
        all_digits(decimal(n)),
        digits_value(decimal(n)) == n,
    decreases n,
{
    lemma_digit_char_value(n % 10);
    if n >= 10 {
        lemma_decimal(n / 10);
        let d = decimal(n / 10);
        assert(decimal(n).drop_last() =~= d);
        assert(decimal(n).last() == digit_char(n % 10));
        assert(digits_value(decimal(n)) == digits_value(d) * 10 + digit_value(digit_char(n % 10)));
        assert(n == (n / 10) * 10 + n % 10);
    } else {
        assert(decimal(n).drop_last() =~= Seq::<char>::empty());
        assert(decimal(n).last() == digit_char(n % 10));
        assert(n % 10 == n);
        assert(digits_value(decimal(n)) == digits_value(Seq::<char>::empty()) * 10 + digit_value(digit_char(n % 10)));
    }
}

proof fn lemma_digit_char_value(d: nat)
    requires
        d < 10,
    ensures
        digit_value(digit_char(d)) == d,
        is_digit(digit_char(d)),
{
    let u = (d + '0' as u32) as u32;
    assert(48 <= u <= 57);
    assert((u as char) as u32 == u) by {
        vstd::utf8::char_u32_cast(u as char, u);
    }
}

/// Parsing the decimal representation of a `u64` gives the number back.
pub proof fn lemma_parse_decimal(n: u64)
    ensures
        parse_u64(decimal(n as nat)) == Some(n),
{
    lemma_decimal(n as nat);
    assert(is_digit(decimal(n as nat)[0]));
}

} // verus!

//! Verified string primitives shared by the library: character-level
//! views of `str`, substring search, single-pass replacement, and
//! decimal/hexadecimal formatting and parsing.

use vstd::prelude::*;
use vstd::std_specs::iter::IteratorSpec;

verus! {

broadcast use vstd::std_specs::vec::group_vec_axioms;

/// `pat` occurs in `s` starting at index `i`.
pub open spec fn is_match_at(s: Seq<char>, pat: Seq<char>, i: int) -> bool {
    &&& 0 <= i
    &&& i + pat.len() <= s.len()
    &&& forall|j: int| 0 <= j < pat.len() ==> s[i + j] == pat[j]
}

/// `pat` occurs somewhere in `s`.
pub open spec fn contains_seq(s: Seq<char>, pat: Seq<char>) -> bool {
    exists|i: int| is_match_at(s, pat, i)
}

/// One left-to-right pass replacing each non-overlapping occurrence of
/// `pat` by `rep`, as `str::replace` does.
pub open spec fn replace_all_seq(s: Seq<char>, pat: Seq<char>, rep: Seq<char>) -> Seq<char>
    decreases s.len(),
{
    if pat.len() == 0 || s.len() == 0 {
        s
    } else if is_match_at(s, pat, 0) {
        rep + replace_all_seq(s.skip(pat.len() as int), pat, rep)
    } else {
        seq![s[0]] + replace_all_seq(s.skip(1), pat, rep)
    }
}

pub proof fn lemma_match_at_skip(s: Seq<char>, pat: Seq<char>, i: int)
    requires
        0 <= i <= s.len(),
    ensures
        is_match_at(s.skip(i), pat, 0) == is_match_at(s, pat, i),
{
    if is_match_at(s.skip(i), pat, 0) {
        assert forall|j: int| 0 <= j < pat.len() implies s[i + j] == pat[j] by {
            assert(s.skip(i)[j] == pat[j]);
        }
    }
    if is_match_at(s, pat, i) {
        assert forall|j: int| 0 <= j < pat.len() implies s.skip(i)[j] == pat[j] by {
            assert(s.skip(i)[j] == s[i + j]);
        }
    }
}

/// The characters of `s`, as a vector.
pub fn chars_of(s: &str) -> (r: Vec<char>)
    ensures
        r@ == s@,
{
    broadcast use vstd::string::axiom_spec_iter;
    broadcast use vstd::string::next_postcondition;

    let mut it = s.chars();
    let mut r: Vec<char> = Vec::new();
    loop
        invariant
            it.obeys_prophetic_iter_laws(),
            it.decrease() is Some,
            r@ + it.remaining() == s@,
        ensures
            r@ == s@,
        decreases it.decrease()->0,
    {
        match it.next() {
            Some(c) => {
                r.push(c);
                assert(r@ + it.remaining() =~= s@);
            },
            None => {
                assert(r@ =~= s@);
                break;
            },
        }
    }
    r
}

/// Relies on `String`'s `FromIterator<char>`: collecting characters
/// yields the string made of exactly those characters, in order.
#[verifier::external_body]
pub fn string_from_chars(cs: &Vec<char>) -> (r: String)
    ensures
        r@ == cs@,
{
    cs.iter().collect()
}

/// The two strings hold the same characters.
pub fn str_eq(a: &str, b: &str) -> (r: bool)
    ensures
        r == (a@ == b@),
{
    let av = chars_of(a);
    let bv = chars_of(b);
    if av.len() != bv.len() {
        assert(a@.len() != b@.len());
        return false;
    }
    let mut i: usize = 0;
    while i < av.len()
        invariant
            av@ == a@,
            bv@ == b@,
            av@.len() == bv@.len(),
            0 <= i <= av@.len(),
            forall|j: int| 0 <= j < i ==> av@[j] == bv@[j],
        decreases av@.len() - i,
    {
        if av[i] != bv[i] {
            assert(a@[i as int] != b@[i as int]);
            return false;
        }
        i += 1;
    }
    assert(a@ =~= b@);
    true
}

/// `pat` occurs in `s` at position `i`.
pub fn matches_at(s: &Vec<char>, pat: &Vec<char>, i: usize) -> (r: bool)
    requires
        i <= s@.len(),
    ensures
        r == is_match_at(s@, pat@, i as int),
{
    if pat.len() > s.len() - i {
        return false;
    }
    let mut j: usize = 0;
    while j < pat.len()
        invariant
            i + pat@.len() <= s@.len(),
            s@.len() <= usize::MAX,
            0 <= j <= pat@.len(),
            forall|k: int| 0 <= k < j ==> s@[i + k] == pat@[k],
        decreases pat@.len() - j,
    {
        if s[i + j] != pat[j] {
            return false;
        }
        j += 1;
    }
    true
}

/// First occurrence of `pat` in `s` at or after `from`.
pub fn find_from(s: &Vec<char>, pat: &Vec<char>, from: usize) -> (r: Option<usize>)
    requires
        from <= s@.len(),
        pat@.len() > 0,
    ensures
        match r {
            Some(i) => {
                &&& from <= i
                &&& is_match_at(s@, pat@, i as int)
                &&& forall|k: int| from <= k < i ==> !is_match_at(s@, pat@, k)
            },
            None => forall|k: int| from <= k ==> !is_match_at(s@, pat@, k),
        },
{
    let mut i: usize = from;
    while i < s.len()
        invariant
            from <= i <= s@.len(),
            forall|k: int| from <= k < i ==> !is_match_at(s@, pat@, k),
        decreases s@.len() - i,
    {
        if matches_at(s, pat, i) {
            return Some(i);
        }
        i += 1;
    }
    assert forall|k: int| from <= k implies !is_match_at(s@, pat@, k) by {
        if k >= i {
            assert(k + pat@.len() > s@.len());
        }
    }
    None
}

/// `pat` occurs somewhere in `s`.
pub fn contains_pat(s: &Vec<char>, pat: &Vec<char>) -> (r: bool)
    ensures
        r == contains_seq(s@, pat@),
{
    if pat.len() == 0 {
        assert(is_match_at(s@, pat@, 0));
        return true;
    }
    match find_from(s, pat, 0) {
        Some(_) => true,
        None => false,
    }
}

/// Append every character of `add` to `out`.
pub fn append_chars(out: &mut Vec<char>, add: &Vec<char>)
    ensures
        final(out)@ == old(out)@ + add@,
{
    let mut k: usize = 0;
    while k < add.len()
        invariant
            0 <= k <= add@.len(),
            out@ == old(out)@ + add@.take(k as int),
        decreases add@.len() - k,
    {
        out.push(add[k]);
        assert(out@ =~= old(out)@ + add@.take(k + 1));
        k += 1;
    }
    assert(out@ =~= old(out)@ + add@);
}

/// `pat` occurs somewhere in the string `s`.
pub fn str_contains(s: &str, pat: &str) -> (r: bool)
    ensures
        r == contains_seq(s@, pat@),
{
    let sv = chars_of(s);
    let pv = chars_of(pat);
    contains_pat(&sv, &pv)
}

proof fn lemma_skip_skip(s: Seq<char>, i: int, j: int)
    requires
        0 <= i,
        0 <= j,
        i + j <= s.len(),
    ensures
        s.skip(i).skip(j) =~= s.skip(i + j),
{
}

/// Replace every non-overlapping occurrence of `pat` in `s` by `rep`,
/// left to right in one pass.
pub fn replace_chars(s: &Vec<char>, pat: &Vec<char>, rep: &Vec<char>) -> (r: Vec<char>)
    requires
        pat@.len() > 0,
    ensures
        r@ == replace_all_seq(s@, pat@, rep@),
{
    let ghost total = replace_all_seq(s@, pat@, rep@);
    let mut out: Vec<char> = Vec::new();
    let mut i: usize = 0;
    proof {
        assert(s@.skip(0) =~= s@);
        assert(out@ + replace_all_seq(s@, pat@, rep@) =~= total);
    }
    while i < s.len()
        invariant
            pat@.len() > 0,
            0 <= i <= s@.len(),
            total == replace_all_seq(s@, pat@, rep@),
            total == out@ + replace_all_seq(s@.skip(i as int), pat@, rep@),
        decreases s@.len() - i,
    {
        let ghost tail = s@.skip(i as int);
        assert(tail.len() == s@.len() - i);
        if matches_at(s, pat, i) {
            proof {
                lemma_match_at_skip(s@, pat@, i as int);
                assert(is_match_at(tail, pat@, 0));
                lemma_skip_skip(s@, i as int, pat@.len() as int);
                assert(replace_all_seq(tail, pat@, rep@) == rep@ + replace_all_seq(
                    s@.skip(i + pat@.len()),
                    pat@,
                    rep@,
                ));
            }
            append_chars(&mut out, rep);
            assert(out@ + replace_all_seq(s@.skip(i + pat@.len()), pat@, rep@) =~= total);
            i += pat.len();
        } else {
            proof {
                lemma_match_at_skip(s@, pat@, i as int);
                assert(!is_match_at(tail, pat@, 0));
                assert(replace_all_seq(tail, pat@, rep@) == seq![tail[0]] + replace_all_seq(
                    tail.skip(1),
                    pat@,
                    rep@,
                ));
                lemma_skip_skip(s@, i as int, 1);
                assert(tail[0] == s@[i as int]);
            }
            out.push(s[i]);
            assert(out@ + replace_all_seq(s@.skip(i + 1), pat@, rep@) =~= total);
            i += 1;
        }
    }
    assert(s@.skip(i as int) =~= Seq::<char>::empty());
    assert(out@ =~= total);
    out
}

/// The character for the value `d` in bases up to sixteen, lower case.
pub open spec fn digit_char(d: int) -> char {
    if d == 0 { '0' }
    else if d == 1 { '1' }
    else if d == 2 { '2' }
    else if d == 3 { '3' }
    else if d == 4 { '4' }
    else if d == 5 { '5' }
    else if d == 6 { '6' }
    else if d == 7 { '7' }
    else if d == 8 { '8' }
    else if d == 9 { '9' }
    else if d == 10 { 'a' }
    else if d == 11 { 'b' }
    else if d == 12 { 'c' }
    else if d == 13 { 'd' }
    else if d == 14 { 'e' }
    else if d == 15 { 'f' }
    else { '?' }
}

/// Decimal representation of `n`, most significant digit first, no sign,
/// no leading zeros (a single `0` for zero).
pub open spec fn dec_rep(n: int) -> Seq<char>
    decreases n,
{
    if n < 10 {
        seq![digit_char(n)]
    } else {
        dec_rep(n / 10).push(digit_char(n % 10))
    }
}

/// Lower-case hexadecimal representation of `n`, no prefix, no leading
/// zeros (a single `0` for zero).
pub open spec fn hex_rep(n: int) -> Seq<char>
    decreases n,
{
    if n < 16 {
        seq![digit_char(n)]
    } else {
        hex_rep(n / 16).push(digit_char(n % 16))
    }
}

fn digit_char_of(d: u64) -> (r: char)
    requires
        d < 16,
    ensures
        r == digit_char(d as int),
{
    if d == 0 { '0' }
    else if d == 1 { '1' }
    else if d == 2 { '2' }
    else if d == 3 { '3' }
    else if d == 4 { '4' }
    else if d == 5 { '5' }
    else if d == 6 { '6' }
    else if d == 7 { '7' }
    else if d == 8 { '8' }
    else if d == 9 { '9' }
    else if d == 10 { 'a' }
    else if d == 11 { 'b' }
    else if d == 12 { 'c' }
    else if d == 13 { 'd' }
    else if d == 14 { 'e' }
    else { 'f' }
}

/// The decimal digits of `n`.
pub fn u64_dec_chars(n: u64) -> (r: Vec<char>)
    ensures
        r@ == dec_rep(n as int),
    decreases n,
{
    if n < 10 {
        let mut r: Vec<char> = Vec::new();
        r.push(digit_char_of(n));
        assert(r@ =~= dec_rep(n as int));
        r
    } else {
        let mut r = u64_dec_chars(n / 10);
        r.push(digit_char_of(n % 10));
        r
    }
}

/// The lower-case hexadecimal digits of `n`.
pub fn u64_hex_chars(n: u64) -> (r: Vec<char>)
    ensures
        r@ == hex_rep(n as int),
    decreases n,
{
    if n < 16 {
        let mut r: Vec<char> = Vec::new();
        r.push(digit_char_of(n));
        assert(r@ =~= hex_rep(n as int));
        r
    } else {
        let mut r = u64_hex_chars(n / 16);
        r.push(digit_char_of(n % 16));
        r
    }
}

/// ASCII upper-case letters fold to lower case; everything else is itself.
pub open spec fn fold_char(c: char) -> char {
    if c == 'A' { 'a' } else if c == 'B' { 'b' } else if c == 'C' { 'c' }
    else if c == 'D' { 'd' } else if c == 'E' { 'e' } else if c == 'F' { 'f' }
    else if c == 'G' { 'g' } else if c == 'H' { 'h' } else if c == 'I' { 'i' }
    else if c == 'J' { 'j' } else if c == 'K' { 'k' } else if c == 'L' { 'l' }
    else if c == 'M' { 'm' } else if c == 'N' { 'n' } else if c == 'O' { 'o' }
    else if c == 'P' { 'p' } else if c == 'Q' { 'q' } else if c == 'R' { 'r' }
    else if c == 'S' { 's' } else if c == 'T' { 't' } else if c == 'U' { 'u' }
    else if c == 'V' { 'v' } else if c == 'W' { 'w' } else if c == 'X' { 'x' }
    else if c == 'Y' { 'y' } else if c == 'Z' { 'z' } else { c }
}

/// ASCII case folding of one character.
pub fn fold_char_x(c: char) -> (r: char)
    ensures
        r == fold_char(c),
{
    if c == 'A' { 'a' } else if c == 'B' { 'b' } else if c == 'C' { 'c' }
    else if c == 'D' { 'd' } else if c == 'E' { 'e' } else if c == 'F' { 'f' }
    else if c == 'G' { 'g' } else if c == 'H' { 'h' } else if c == 'I' { 'i' }
    else if c == 'J' { 'j' } else if c == 'K' { 'k' } else if c == 'L' { 'l' }
    else if c == 'M' { 'm' } else if c == 'N' { 'n' } else if c == 'O' { 'o' }
    else if c == 'P' { 'p' } else if c == 'Q' { 'q' } else if c == 'R' { 'r' }
    else if c == 'S' { 's' } else if c == 'T' { 't' } else if c == 'U' { 'u' }
    else if c == 'V' { 'v' } else if c == 'W' { 'w' } else if c == 'X' { 'x' }
    else if c == 'Y' { 'y' } else if c == 'Z' { 'z' } else { c }
}

/// ASCII-lower-cased copy of the characters.
pub open spec fn lower_ascii(s: Seq<char>) -> Seq<char> {
    s.map_values(|c: char| fold_char(c))
}

pub fn lower_ascii_x(s: &Vec<char>) -> (r: Vec<char>)
    ensures
        r@ == lower_ascii(s@),
{
    let mut r: Vec<char> = Vec::new();
    let mut i: usize = 0;
    let n = s.len();
    assert(s@.len() == n <= usize::MAX);
    proof {
        assert(r@ =~= lower_ascii(s@).take(0));
    }
    while i < s.len()
        invariant
            0 <= i <= s@.len(),
            s@.len() <= usize::MAX,
            r@ == lower_ascii(s@).take(i as int),
        decreases s@.len() - i,
    {
        r.push(fold_char_x(s[i]));
        assert(r@ =~= lower_ascii(s@).take(i + 1));
        i += 1;
    }
    proof {
        assert(lower_ascii(s@).take(i as int) =~= lower_ascii(s@));
    }
    r
}

/// First occurrence index of `pat` in `s` at or after `i`.
pub open spec fn find_idx(s: Seq<char>, pat: Seq<char>, i: int) -> Option<int>
    decreases s.len() - i,
{
    if i < 0 || i + pat.len() > s.len() {
        None
    } else if is_match_at(s, pat, i) {
        Some(i)
    } else {
        find_idx(s, pat, i + 1)
    }
}

pub proof fn lemma_find_idx_some(s: Seq<char>, pat: Seq<char>, from: int, k: int)
    requires
        0 <= from <= k,
        is_match_at(s, pat, k),
        forall|j: int| from <= j < k ==> !is_match_at(s, pat, j),
    ensures
        find_idx(s, pat, from) == Some(k),
    decreases k - from,
{
    if from < k {
        lemma_find_idx_some(s, pat, from + 1, k);
    }
}

pub proof fn lemma_find_idx_none(s: Seq<char>, pat: Seq<char>, from: int)
    requires
        0 <= from,
        forall|j: int| from <= j ==> !is_match_at(s, pat, j),
    ensures
        find_idx(s, pat, from) is None,
    decreases s.len() - from,
{
    if from + pat.len() <= s.len() {
        lemma_find_idx_none(s, pat, from + 1);
    }
}

/// Code-point order on strings from position `i` on: the shorter runs
/// out first, otherwise the first position with differing codes
/// decides.
pub open spec fn lex_le_from(a: Seq<char>, b: Seq<char>, i: int) -> bool
    decreases a.len() - i,
    when i >= 0
{
    if i >= a.len() {
        true
    } else if i >= b.len() {
        false
    } else if (a[i] as u32) < (b[i] as u32) {
        true
    } else if (a[i] as u32) > (b[i] as u32) {
        false
    } else {
        lex_le_from(a, b, i + 1)
    }
}

/// Code-point order on strings, as an embedded database collates text.
pub open spec fn lex_le(a: Seq<char>, b: Seq<char>) -> bool {
    lex_le_from(a, b, 0)
}

fn lex_le_from_x(a: &Vec<char>, b: &Vec<char>, i: usize) -> (r: bool)
    requires
        i <= a@.len(),
        i <= b@.len(),
    ensures
        r == lex_le_from(a@, b@, i as int),
    decreases a@.len() - i,
{
    if i >= a.len() {
        true
    } else if i >= b.len() {
        false
    } else if (a[i] as u32) < (b[i] as u32) {
        true
    } else if (a[i] as u32) > (b[i] as u32) {
        false
    } else {
        lex_le_from_x(a, b, i + 1)
    }
}

/// Whether `a` collates at or before `b`.
pub fn str_le(a: &str, b: &str) -> (r: bool)
    ensures
        r == lex_le(a@, b@),
{
    let av = chars_of(a);
    let bv = chars_of(b);
    lex_le_from_x(&av, &bv, 0)
}

/// The order is total: two strings always compare one way or the other.
pub proof fn lemma_lex_total(a: Seq<char>, b: Seq<char>)
    ensures
        lex_le(a, b) || lex_le(b, a),
{
    lemma_lex_total_from(a, b, 0);
}

proof fn lemma_lex_total_from(a: Seq<char>, b: Seq<char>, i: int)
    requires
        0 <= i,
    ensures
        lex_le_from(a, b, i) || lex_le_from(b, a, i),
    decreases a.len() - i,
{
    if i < a.len() && i < b.len() && (a[i] as u32) == (b[i] as u32) {
        lemma_lex_total_from(a, b, i + 1);
    }
}

/// The order is transitive.
pub proof fn lemma_lex_trans(a: Seq<char>, b: Seq<char>, c: Seq<char>)
    requires
        lex_le(a, b),
        lex_le(b, c),
    ensures
        lex_le(a, c),
{
    lemma_lex_trans_from(a, b, c, 0);
}

proof fn lemma_lex_trans_from(a: Seq<char>, b: Seq<char>, c: Seq<char>, i: int)
    requires
        0 <= i,
        lex_le_from(a, b, i),
        lex_le_from(b, c, i),
    ensures
        lex_le_from(a, c, i),
    decreases a.len() - i,
{
    if i < a.len() && i < c.len() && (a[i] as u32) == (c[i] as u32) {
        if i < b.len() && (a[i] as u32) == (b[i] as u32) && (b[i] as u32) == (c[i] as u32) {
            lemma_lex_trans_from(a, b, c, i + 1);
        }
    }
}

/// The Unicode white-space characters.
pub open spec fn is_space(c: char) -> bool {
    let u = c as u32;
    ||| u == 0x09 ||| u == 0x0A ||| u == 0x0B ||| u == 0x0C ||| u == 0x0D
    ||| u == 0x20 ||| u == 0x85 ||| u == 0xA0 ||| u == 0x1680
    ||| (0x2000 <= u && u <= 0x200A)
    ||| u == 0x2028 ||| u == 0x2029 ||| u == 0x202F ||| u == 0x205F
    ||| u == 0x3000
}

/// Whether `c` is a white-space character.
pub fn is_space_char(c: char) -> (r: bool)
    ensures
        r == is_space(c),
{
    let u = c as u32;
    u == 0x09 || u == 0x0A || u == 0x0B || u == 0x0C || u == 0x0D
        || u == 0x20 || u == 0x85 || u == 0xA0 || u == 0x1680
        || (0x2000 <= u && u <= 0x200A)
        || u == 0x2028 || u == 0x2029 || u == 0x202F || u == 0x205F
        || u == 0x3000
}

/// `s` with leading and trailing white space removed.
pub open spec fn trimmed(s: Seq<char>) -> Seq<char>
    decreases s.len(),
{
    if s.len() == 0 {
        s
    } else if is_space(s[0]) {
        trimmed(s.drop_first())
    } else if is_space(s.last()) {
        trimmed(s.drop_last())
    } else {
        s
    }
}

/// The characters `v[a..b]`.
pub fn sub_chars(v: &Vec<char>, a: usize, b: usize) -> (r: Vec<char>)
    requires
        a <= b <= v@.len(),
    ensures
        r@ == v@.subrange(a as int, b as int),
{
    let mut r: Vec<char> = Vec::new();
    let mut i: usize = a;
    let n = v.len();
    assert(v@.len() == n <= usize::MAX);
    proof {
        assert(r@ =~= v@.subrange(a as int, a as int));
    }
    while i < b
        invariant
            a <= i <= b <= v@.len(),
            v@.len() <= usize::MAX,
            r@ == v@.subrange(a as int, i as int),
        decreases b - i,
    {
        r.push(v[i]);
        assert(r@ =~= v@.subrange(a as int, i + 1));
        i += 1;
    }
    r
}

/// Last index holding the character `c`.
pub open spec fn rfind_char(s: Seq<char>, c: char) -> Option<int>
    decreases s.len(),
{
    if s.len() == 0 {
        None
    } else if s.last() == c {
        Some(s.len() - 1)
    } else {
        rfind_char(s.drop_last(), c)
    }
}

pub proof fn lemma_rfind_at(s: Seq<char>, c: char, k: int)
    requires
        0 <= k < s.len(),
        s[k] == c,
        forall|j: int| k < j < s.len() ==> s[j] != c,
    ensures
        rfind_char(s, c) == Some(k),
    decreases s.len(),
{
    if k < s.len() - 1 {
        assert(s.drop_last()[k] == s[k]);
        lemma_rfind_at(s.drop_last(), c, k);
    }
}

pub proof fn lemma_rfind_absent(s: Seq<char>, c: char)
    requires
        forall|j: int| 0 <= j < s.len() ==> s[j] != c,
    ensures
        rfind_char(s, c) is None,
    decreases s.len(),
{
    if s.len() > 0 {
        lemma_rfind_absent(s.drop_last(), c);
    }
}

/// The last occurrence of `c` in `v`.
pub fn rfind_char_x(v: &Vec<char>, c: char) -> (r: Option<usize>)
    ensures
        match r {
            Some(i) => i < v@.len() && rfind_char(v@, c) == Some(i as int),
            None => rfind_char(v@, c) is None,
        },
{
    let n = v.len();
    let mut i: usize = n;
    while i > 0
        invariant
            n == v@.len() <= usize::MAX,
            0 <= i <= n,
            forall|j: int| i <= j < n ==> v@[j] != c,
        decreases i,
    {
        i -= 1;
        if v[i] == c {
            proof {
                lemma_rfind_at(v@, c, i as int);
            }
            return Some(i);
        }
    }
    proof {
        lemma_rfind_absent(v@, c);
    }
    None
}

/// Trim white space from both ends of a character vector.
pub fn trim_chars(cs: &Vec<char>) -> (r: Vec<char>)
    ensures
        r@ == trimmed(cs@),
{
    let n = cs.len();
    let mut a: usize = 0;
    proof {
        assert(cs@.subrange(0, n as int) =~= cs@);
    }
    while a < n && is_space_char(cs[a])
        invariant
            n == cs@.len() <= usize::MAX,
            0 <= a <= n,
            trimmed(cs@) == trimmed(cs@.subrange(a as int, n as int)),
            forall|k: int| 0 <= k < a ==> is_space(cs@[k]),
        decreases n - a,
    {
        proof {
            let cur = cs@.subrange(a as int, n as int);
            assert(cur[0] == cs@[a as int]);
            assert(cur.drop_first() =~= cs@.subrange(a + 1, n as int));
        }
        a += 1;
    }
    let mut b: usize = n;
    while b > a && is_space_char(cs[b - 1])
        invariant
            n == cs@.len() <= usize::MAX,
            0 <= a <= b <= n,
            trimmed(cs@) == trimmed(cs@.subrange(a as int, b as int)),
            a < n ==> !is_space(cs@[a as int]),
        decreases b,
    {
        proof {
            let cur = cs@.subrange(a as int, b as int);
            assert(cur.len() > 0);
            assert(cur.last() == cs@[b - 1]);
            assert(cur[0] == cs@[a as int]);
            assert(cur.drop_last() =~= cs@.subrange(a as int, b - 1));
        }
        b -= 1;
    }
    let out = sub_chars(cs, a, b);
    proof {
        let cur = cs@.subrange(a as int, b as int);
        if cur.len() > 0 {
            assert(cur[0] == cs@[a as int]);
            assert(cur.last() == cs@[b - 1]);
            assert(!is_space(cur[0]) && !is_space(cur.last()));
        }
        assert(trimmed(cur) == cur);
    }
    out
}

/// Trim white space from both ends of a string.
pub fn trim_str(s: &str) -> (r: String)
    ensures
        r@ == trimmed(s@),
{
    let cs = chars_of(s);
    let n = cs.len();
    let mut a: usize = 0;
    proof {
        assert(cs@.subrange(0, n as int) =~= cs@);
    }
    while a < n && is_space_char(cs[a])
        invariant
            n == cs@.len() <= usize::MAX,
            0 <= a <= n,
            trimmed(cs@) == trimmed(cs@.subrange(a as int, n as int)),
            forall|k: int| 0 <= k < a ==> is_space(cs@[k]),
        decreases n - a,
    {
        proof {
            let cur = cs@.subrange(a as int, n as int);
            assert(cur[0] == cs@[a as int]);
            assert(cur.drop_first() =~= cs@.subrange(a + 1, n as int));
        }
        a += 1;
    }
    let mut b: usize = n;
    while b > a && is_space_char(cs[b - 1])
        invariant
            n == cs@.len() <= usize::MAX,
            0 <= a <= b <= n,
            trimmed(cs@) == trimmed(cs@.subrange(a as int, b as int)),
            a < n ==> !is_space(cs@[a as int]),
        decreases b,
    {
        proof {
            let cur = cs@.subrange(a as int, b as int);
            assert(cur.len() > 0);
            assert(cur.last() == cs@[b - 1]);
            assert(cur[0] == cs@[a as int]);
            assert(cur.drop_last() =~= cs@.subrange(a as int, b - 1));
        }
        b -= 1;
    }
    let mut out: Vec<char> = Vec::new();
    let mut i: usize = a;
    while i < b
        invariant
            a <= i <= b <= n,
            n == cs@.len() <= usize::MAX,
            out@ == cs@.subrange(a as int, i as int),
        decreases b - i,
    {
        out.push(cs[i]);
        assert(out@ =~= cs@.subrange(a as int, i + 1));
        i += 1;
    }
    proof {
        let cur = cs@.subrange(a as int, b as int);
        if cur.len() > 0 {
            assert(cur[0] == cs@[a as int]);
            assert(cur.last() == cs@[b - 1]);
            assert(!is_space(cur[0]) && !is_space(cur.last()));
        }
        assert(trimmed(cur) == cur);
        assert(out@ =~= cur);
    }
    string_from_chars(&out)
}

/// Decimal representation of a signed value: a minus sign for negative
/// values, then the digits of the magnitude.
pub open spec fn dec_rep_i64(x: i64) -> Seq<char> {
    if x >= 0 {
        dec_rep(x as int)
    } else {
        seq!['-'] + dec_rep(-(x as int))
    }
}

/// The decimal digits of `x`, sign included.
pub fn i64_dec_chars(x: i64) -> (r: Vec<char>)
    ensures
        r@ == dec_rep_i64(x),
{
    if x >= 0 {
        u64_dec_chars(x as u64)
    } else {
        // The magnitude of `i64::MIN` overflows `i64`, so step through
        // `x + 1` before negating.
        let mag: u64 = ((-(x + 1)) as u64) + 1;
        assert(mag as int == -(x as int));
        let mut r: Vec<char> = Vec::new();
        r.push('-');
        let digits = u64_dec_chars(mag);
        append_chars(&mut r, &digits);
        assert(r@ =~= dec_rep_i64(x));
        r
    }
}

/// `c` is an ASCII decimal digit.
pub open spec fn is_dec_digit(c: char) -> bool {
    48 <= c as u32 <= 57
}

/// The value of the digit `c`; non-digits count as zero.
pub open spec fn digit_val(c: char) -> int {
    if is_dec_digit(c) {
        c as u32 - 48
    } else {
        0
    }
}

/// The value of a run of decimal digits, most significant first.
pub open spec fn dec_val(ds: Seq<char>) -> int
    decreases ds.len(),
{
    if ds.len() == 0 {
        0
    } else {
        dec_val(ds.drop_last()) * 10 + digit_val(ds.last())
    }
}

pub proof fn lemma_dec_val_nonneg(ds: Seq<char>)
    ensures
        dec_val(ds) >= 0,
    decreases ds.len(),
{
    if ds.len() > 0 {
        lemma_dec_val_nonneg(ds.drop_last());
    }
}

/// Extending a digit run never shrinks its value.
pub proof fn lemma_dec_val_prefix_le(ds: Seq<char>, i: int, j: int)
    requires
        0 <= i <= j <= ds.len(),
    ensures
        dec_val(ds.take(i)) <= dec_val(ds.take(j)),
    decreases j - i,
{
    if i < j {
        lemma_dec_val_prefix_le(ds, i, j - 1);
        lemma_dec_val_nonneg(ds.take(j - 1));
        assert(ds.take(j).drop_last() =~= ds.take(j - 1));
        assert(dec_val(ds.take(j)) == dec_val(ds.take(j - 1)) * 10 + digit_val(ds.take(j).last()));
    }
}

/// The value of the digits `s[start..end]`, when it fits in a `u64`;
/// `None` when it would overflow.
pub fn parse_dec_range(s: &Vec<char>, start: usize, end: usize) -> (r: Option<u64>)
    requires
        start <= end <= s@.len(),
    ensures
        ({
            let ds = s@.subrange(start as int, end as int);
            match r {
                Some(v) => dec_val(ds) <= u64::MAX && v == dec_val(ds),
                None => dec_val(ds) > u64::MAX,
            }
        }),
{
    let ghost ds = s@.subrange(start as int, end as int);
    let slen = s.len();
    assert(s@.len() == slen <= usize::MAX);
    let mut acc: u64 = 0;
    let mut i: usize = start;
    while i < end
        invariant
            start <= i <= end <= s@.len(),
            s@.len() <= usize::MAX,
            ds == s@.subrange(start as int, end as int),
            acc == dec_val(ds.take(i - start)),
        decreases end - i,
    {
        let c = s[i];
        let d: u64 = if (c as u32) >= 48 && (c as u32) <= 57 {
            ((c as u32) - 48) as u64
        } else {
            0
        };
        proof {
            assert(ds[i - start] == s@[i as int]);
            assert(d == digit_val(ds[i - start]));
            assert(ds.take(i - start + 1).drop_last() =~= ds.take(i - start));
            assert(ds.take(i - start + 1).last() == ds[i - start]);
        }
        if acc > u64::MAX / 10 {
            proof {
                assert(dec_val(ds.take(i - start + 1)) == acc * 10 + d);
                assert(acc * 10 > u64::MAX) by (nonlinear_arith)
                    requires acc > u64::MAX / 10;
                lemma_dec_val_prefix_le(ds, i - start + 1, ds.len() as int);
                assert(ds.take(ds.len() as int) =~= ds);
            }
            return None;
        }
        let acc10 = acc * 10;
        if d > u64::MAX - acc10 {
            proof {
                assert(dec_val(ds.take(i - start + 1)) == acc * 10 + d);
                lemma_dec_val_prefix_le(ds, i - start + 1, ds.len() as int);
                assert(ds.take(ds.len() as int) =~= ds);
            }
            return None;
        }
        acc = acc10 + d;
        i += 1;
    }
    assert(ds.take(i - start) =~= ds);
    Some(acc)
}

} // verus!

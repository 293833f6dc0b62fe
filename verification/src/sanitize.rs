//! Sanitization of user-provided content before it enters any prompt:
//! instruction-like injection patterns are replaced by a fixed token,
//! triple-backtick fences are defused, and over-long content is truncated
//! at a character boundary.
//!
//! The injection pattern is a keyword of the first group (`ignore`,
//! `disregard`, `forget`), at least one whitespace character, then a
//! keyword of the second group (`previous`, `above`, `all`), letters
//! matched without regard to ASCII case.

use vstd::prelude::*;
use crate::strutil::{
    chars_of, replace_chars, replace_all_seq, string_from_chars, append_chars, is_space,
    is_space_char, fold_char, fold_char_x, is_match_at,
};

verus! {

/// Maximum character length for user content.
pub const MAX_CONTENT_LENGTH: usize = 10000;

/// `kw` (already lower case) occurs at `i` in `s` up to ASCII case.
pub open spec fn kw_at(s: Seq<char>, kw: Seq<char>, i: int) -> bool {
    &&& 0 <= i
    &&& i + kw.len() <= s.len()
    &&& forall|j: int| 0 <= j < kw.len() ==> fold_char(s[i + j]) == kw[j]
}

pub open spec fn kw_ignore() -> Seq<char> { seq!['i', 'g', 'n', 'o', 'r', 'e'] }

pub open spec fn kw_disregard() -> Seq<char> {
    seq!['d', 'i', 's', 'r', 'e', 'g', 'a', 'r', 'd']
}

pub open spec fn kw_forget() -> Seq<char> { seq!['f', 'o', 'r', 'g', 'e', 't'] }

pub open spec fn kw_previous() -> Seq<char> { seq!['p', 'r', 'e', 'v', 'i', 'o', 'u', 's'] }

pub open spec fn kw_above() -> Seq<char> { seq!['a', 'b', 'o', 'v', 'e'] }

pub open spec fn kw_all() -> Seq<char> { seq!['a', 'l', 'l'] }

/// Length of the first-group keyword at `i`, if any.
pub open spec fn first_kw_len_at(s: Seq<char>, i: int) -> Option<int> {
    if kw_at(s, kw_ignore(), i) {
        Some(6)
    } else if kw_at(s, kw_disregard(), i) {
        Some(9)
    } else if kw_at(s, kw_forget(), i) {
        Some(6)
    } else {
        None
    }
}

/// Length of the second-group keyword at `i`, if any.
pub open spec fn second_kw_len_at(s: Seq<char>, i: int) -> Option<int> {
    if kw_at(s, kw_previous(), i) {
        Some(8)
    } else if kw_at(s, kw_above(), i) {
        Some(5)
    } else if kw_at(s, kw_all(), i) {
        Some(3)
    } else {
        None
    }
}

/// Length of the maximal white-space run starting at `i`.
pub open spec fn space_run(s: Seq<char>, i: int) -> int
    decreases s.len() - i,
{
    if 0 <= i < s.len() && is_space(s[i]) {
        1 + space_run(s, i + 1)
    } else {
        0
    }
}

pub proof fn lemma_space_run_bounds(s: Seq<char>, i: int)
    requires
        0 <= i <= s.len(),
    ensures
        0 <= space_run(s, i),
        i + space_run(s, i) <= s.len(),
    decreases s.len() - i,
{
    if i < s.len() && is_space(s[i]) {
        lemma_space_run_bounds(s, i + 1);
    }
}

/// A stretch of white space makes the run at least that long.
pub proof fn lemma_space_run_least(s: Seq<char>, i: int, k: int)
    requires
        0 <= i <= k <= s.len(),
        forall|j: int| i <= j < k ==> is_space(s[j]),
    ensures
        space_run(s, i) >= k - i,
    decreases k - i,
{
    if i < k {
        lemma_space_run_least(s, i + 1, k);
    } else {
        lemma_space_run_bounds(s, i);
    }
}

/// A non-space character caps the run before it.
pub proof fn lemma_space_run_at_most(s: Seq<char>, w: int)
    requires
        0 <= w < s.len(),
        !is_space(s[w]),
    ensures
        space_run(s, 0) <= w,
{
    if space_run(s, 0) > w {
        lemma_space_run_covers(s, 0, w);
    }
}

/// Every position inside a white-space run holds white space.
pub proof fn lemma_space_run_covers(s: Seq<char>, i: int, w: int)
    requires
        0 <= i <= w < s.len(),
        space_run(s, i) > w - i,
    ensures
        is_space(s[w]),
    decreases w - i,
{
    if i < w {
        lemma_space_run_covers(s, i + 1, w);
    }
}

/// Length of the injection pattern starting at `i`: a first-group
/// keyword, one or more white-space characters, a second-group keyword.
pub open spec fn inj_len_at(s: Seq<char>, i: int) -> Option<int> {
    match first_kw_len_at(s, i) {
        Some(k1) => {
            let w = space_run(s, i + k1);
            if w >= 1 {
                match second_kw_len_at(s, i + k1 + w) {
                    Some(k2) => Some(k1 + w + k2),
                    None => None,
                }
            } else {
                None
            }
        },
        None => None,
    }
}

pub proof fn lemma_inj_len_bounds(s: Seq<char>, i: int)
    requires
        0 <= i <= s.len(),
        inj_len_at(s, i) is Some,
    ensures
        10 <= inj_len_at(s, i).unwrap(),
        i + inj_len_at(s, i).unwrap() <= s.len(),
{
    let k1 = first_kw_len_at(s, i).unwrap();
    lemma_space_run_bounds(s, i + k1);
}

/// The replacement token for a filtered injection pattern.
pub open spec fn filtered_token() -> Seq<char> {
    seq!['[', 'f', 'i', 'l', 't', 'e', 'r', 'e', 'd', ']']
}

/// One left-to-right pass replacing every injection pattern by the
/// filtered token.
pub open spec fn inj_filter(s: Seq<char>) -> Seq<char>
    decreases s.len(),
{
    if s.len() == 0 {
        s
    } else {
        match inj_len_at(s, 0) {
            Some(m) => {
                if 10 <= m <= s.len() {
                    filtered_token() + inj_filter(s.skip(m))
                } else {
                    // Cannot happen; keeps the recursion well founded.
                    s
                }
            },
            None => seq![s[0]] + inj_filter(s.skip(1)),
        }
    }
}

pub open spec fn fence() -> Seq<char> { seq!['`', '`', '`'] }

pub open spec fn fence_replacement() -> Seq<char> { seq!['\'', '\'', '\''] }

/// The truncation marker appended to over-long content.
pub open spec fn truncation_marker() -> Seq<char> {
    seq!['.', '.', '.', '[', 't', 'r', 'u', 'n', 'c', 'a', 't', 'e', 'd', ']']
}

/// Cut `s` to the maximum length and mark the cut; shorter content is
/// untouched. The cut falls on a character boundary by construction.
pub open spec fn truncate_content(s: Seq<char>) -> Seq<char> {
    if s.len() > MAX_CONTENT_LENGTH {
        s.take(MAX_CONTENT_LENGTH as int) + truncation_marker()
    } else {
        s
    }
}

/// What sanitization produces: injection patterns filtered, fences
/// defused, then truncated.
pub open spec fn sanitize_content(s: Seq<char>) -> Seq<char> {
    truncate_content(replace_all_seq(inj_filter(s), fence(), fence_replacement()))
}

fn kw_at_x(s: &Vec<char>, kw: &Vec<char>, i: usize) -> (r: bool)
    requires
        i <= s@.len(),
    ensures
        r == kw_at(s@, kw@, i as int),
{
    let slen = s.len();
    if kw.len() > slen - i {
        return false;
    }
    let mut j: usize = 0;
    while j < kw.len()
        invariant
            i + kw@.len() <= s@.len(),
            s@.len() <= usize::MAX,
            0 <= j <= kw@.len(),
            forall|k: int| 0 <= k < j ==> fold_char(s@[i + k]) == kw@[k],
        decreases kw@.len() - j,
    {
        if fold_char_x(s[i + j]) != kw[j] {
            return false;
        }
        j += 1;
    }
    true
}

fn space_run_x(s: &Vec<char>, i: usize) -> (r: usize)
    requires
        i <= s@.len(),
    ensures
        r == space_run(s@, i as int),
        i + r <= s@.len(),
    decreases s@.len() - i,
{
    if i < s.len() && is_space_char(s[i]) {
        let rest = space_run_x(s, i + 1);
        1 + rest
    } else {
        0
    }
}

fn first_kw_len_x(s: &Vec<char>, i: usize) -> (r: Option<usize>)
    requires
        i <= s@.len(),
    ensures
        match r {
            Some(k) => first_kw_len_at(s@, i as int) == Some(k as int) && i + k <= s@.len(),
            None => first_kw_len_at(s@, i as int) is None,
        },
{
    let ignore_kw = chars_of("ignore");
    let disregard_kw = chars_of("disregard");
    let forget_kw = chars_of("forget");
    proof {
        reveal_strlit("ignore");
        reveal_strlit("disregard");
        reveal_strlit("forget");
        assert(ignore_kw@ =~= kw_ignore());
        assert(disregard_kw@ =~= kw_disregard());
        assert(forget_kw@ =~= kw_forget());
    }
    if kw_at_x(s, &ignore_kw, i) {
        Some(6)
    } else if kw_at_x(s, &disregard_kw, i) {
        Some(9)
    } else if kw_at_x(s, &forget_kw, i) {
        Some(6)
    } else {
        None
    }
}

fn second_kw_len_x(s: &Vec<char>, i: usize) -> (r: Option<usize>)
    requires
        i <= s@.len(),
    ensures
        match r {
            Some(k) => second_kw_len_at(s@, i as int) == Some(k as int) && i + k <= s@.len(),
            None => second_kw_len_at(s@, i as int) is None,
        },
{
    let previous_kw = chars_of("previous");
    let above_kw = chars_of("above");
    let all_kw = chars_of("all");
    proof {
        reveal_strlit("previous");
        reveal_strlit("above");
        reveal_strlit("all");
        assert(previous_kw@ =~= kw_previous());
        assert(above_kw@ =~= kw_above());
        assert(all_kw@ =~= kw_all());
    }
    if kw_at_x(s, &previous_kw, i) {
        Some(8)
    } else if kw_at_x(s, &above_kw, i) {
        Some(5)
    } else if kw_at_x(s, &all_kw, i) {
        Some(3)
    } else {
        None
    }
}

fn inj_len_x(s: &Vec<char>, i: usize) -> (r: Option<usize>)
    requires
        i <= s@.len(),
    ensures
        match r {
            Some(m) => inj_len_at(s@, i as int) == Some(m as int) && 10 <= m && i + m <= s@.len(),
            None => inj_len_at(s@, i as int) is None,
        },
{
    let slen = s.len();
    assert(s@.len() == slen <= usize::MAX);
    match first_kw_len_x(s, i) {
        None => None,
        Some(k1) => {
            let w = space_run_x(s, i + k1);
            if w == 0 {
                return None;
            }
            match second_kw_len_x(s, i + k1 + w) {
                None => None,
                Some(k2) => Some(k1 + w + k2),
            }
        },
    }
}

fn inj_filter_x(s: &Vec<char>) -> (r: Vec<char>)
    ensures
        r@ == inj_filter(s@),
{
    let ghost total = inj_filter(s@);
    let filtered = chars_of("[filtered]");
    proof {
        reveal_strlit("[filtered]");
        assert(filtered@ =~= filtered_token());
    }
    let mut out: Vec<char> = Vec::new();
    let mut i: usize = 0;
    proof {
        assert(s@.skip(0) =~= s@);
        assert(out@ + inj_filter(s@) =~= total);
    }
    while i < s.len()
        invariant
            0 <= i <= s@.len(),
            filtered@ == filtered_token(),
            total == inj_filter(s@),
            total == out@ + inj_filter(s@.skip(i as int)),
        decreases s@.len() - i,
    {
        let ghost tail = s@.skip(i as int);
        proof {
            lemma_inj_at_skip(s@, i as int);
        }
        match inj_len_x(s, i) {
            Some(m) => {
                proof {
                    assert(inj_len_at(tail, 0) == Some(m as int));
                    assert(tail.len() == s@.len() - i);
                    assert(inj_filter(tail) == filtered_token() + inj_filter(
                        tail.skip(m as int),
                    ));
                    assert(tail.skip(m as int) =~= s@.skip(i + m));
                }
                append_chars(&mut out, &filtered);
                assert(out@ + inj_filter(s@.skip(i + m)) =~= total);
                i += m;
            },
            None => {
                proof {
                    assert(inj_len_at(tail, 0) is None);
                    assert(tail.len() > 0);
                    assert(inj_filter(tail) == seq![tail[0]] + inj_filter(tail.skip(1)));
                    assert(tail.skip(1) =~= s@.skip(i + 1));
                    assert(tail[0] == s@[i as int]);
                }
                out.push(s[i]);
                assert(out@ + inj_filter(s@.skip(i + 1)) =~= total);
                i += 1;
            },
        }
    }
    assert(s@.skip(i as int) =~= Seq::<char>::empty());
    assert(out@ =~= total);
    out
}

/// The injection pattern is insensitive to what lies left of its start:
/// matching at `i` in `s` is matching at `0` in `s` with the first `i`
/// characters dropped.
pub proof fn lemma_inj_at_skip(s: Seq<char>, i: int)
    requires
        0 <= i <= s.len(),
    ensures
        inj_len_at(s.skip(i), 0) == inj_len_at(s, i),
{
    lemma_kw_at_skip(s, kw_ignore(), i, 0);
    lemma_kw_at_skip(s, kw_disregard(), i, 0);
    lemma_kw_at_skip(s, kw_forget(), i, 0);
    match first_kw_len_at(s, i) {
        Some(k1) => {
            lemma_space_run_skip(s, i, k1);
            let w = space_run(s, i + k1);
            if w >= 1 {
                lemma_space_run_bounds(s, i + k1);
                lemma_kw_at_skip(s, kw_previous(), i, k1 + w);
                lemma_kw_at_skip(s, kw_above(), i, k1 + w);
                lemma_kw_at_skip(s, kw_all(), i, k1 + w);
            }
        },
        None => {},
    }
}

proof fn lemma_kw_at_skip(s: Seq<char>, kw: Seq<char>, i: int, j: int)
    requires
        0 <= i <= s.len(),
        0 <= j,
    ensures
        kw_at(s.skip(i), kw, j) == kw_at(s, kw, i + j),
{
    if kw_at(s.skip(i), kw, j) {
        assert forall|k: int| 0 <= k < kw.len() implies fold_char(s[i + j + k]) == kw[k] by {
            assert(s.skip(i)[j + k] == s[i + j + k]);
        }
    }
    if kw_at(s, kw, i + j) {
        assert forall|k: int| 0 <= k < kw.len() implies fold_char(s.skip(i)[j + k]) == kw[k] by {
            assert(s.skip(i)[j + k] == s[i + j + k]);
        }
    }
}

proof fn lemma_space_run_skip(s: Seq<char>, i: int, j: int)
    requires
        0 <= i <= s.len(),
        0 <= j,
    ensures
        space_run(s.skip(i), j) == space_run(s, i + j),
    decreases s.len() - i - j,
{
    if j < s.len() - i {
        assert(s.skip(i)[j] == s[i + j]);
        if is_space(s[i + j]) {
            lemma_space_run_skip(s, i, j + 1);
        }
    }
}

/// The pattern can only lie at `i` when ten characters fit after it.
proof fn lemma_inj_out_of_range(s: Seq<char>, i: int)
    requires
        i < 0 || i > s.len() - 10,
    ensures
        inj_len_at(s, i) is None,
{
    if first_kw_len_at(s, i) is Some {
        let k1 = first_kw_len_at(s, i).unwrap();
        lemma_space_run_bounds(s, i + k1);
    }
}

/// Matching after a skip is matching at the shifted position.
pub proof fn lemma_inj_at_offset(s: Seq<char>, i: int, j: int)
    requires
        0 <= i <= s.len(),
        0 <= j,
    ensures
        inj_len_at(s.skip(i), j) == inj_len_at(s, i + j),
{
    if j <= s.len() - i {
        lemma_inj_at_skip(s.skip(i), j);
        assert(s.skip(i).skip(j) =~= s.skip(i + j));
        lemma_inj_at_skip(s, i + j);
    } else {
        lemma_inj_out_of_range(s.skip(i), j);
        lemma_inj_out_of_range(s, i + j);
    }
}

/// First position at or after `i` where the injection pattern lies.
pub open spec fn first_inj_from(s: Seq<char>, i: int) -> Option<int>
    decreases s.len() - i,
    when 0 <= i
{
    if i > s.len() - 10 {
        None
    } else if inj_len_at(s, i) is Some {
        Some(i)
    } else {
        first_inj_from(s, i + 1)
    }
}

proof fn lemma_first_inj_none(s: Seq<char>, i: int, j: int)
    requires
        0 <= i <= j,
        first_inj_from(s, i) is None,
    ensures
        inj_len_at(s, j) is None,
    decreases j - i,
{
    if j > s.len() - 10 {
        lemma_inj_out_of_range(s, j);
    } else if i < j {
        lemma_first_inj_none(s, i + 1, j);
    }
}

proof fn lemma_first_inj_lower(s: Seq<char>, i: int, l: int)
    requires
        0 <= i,
        first_inj_from(s, i) == Some(l),
    ensures
        i <= l,
        inj_len_at(s, l) is Some,
    decreases s.len() - i,
{
    if i > s.len() - 10 {
    } else if inj_len_at(s, i) is Some {
    } else {
        lemma_first_inj_lower(s, i + 1, l);
    }
}

proof fn lemma_first_inj_some(s: Seq<char>, i: int, l: int)
    requires
        0 <= i,
        first_inj_from(s, i) == Some(l),
    ensures
        i <= l,
        inj_len_at(s, l) is Some,
        forall|j: int| i <= j < l ==> (#[trigger] inj_len_at(s, j)) is None,
    decreases l - i,
{
    lemma_first_inj_lower(s, i, l);
    if i < l {
        lemma_first_inj_some(s, i + 1, l);
    }
}

proof fn lemma_first_inj_build(s: Seq<char>, i: int, l: int)
    requires
        0 <= i <= l,
        l <= s.len() - 10,
        inj_len_at(s, l) is Some,
        forall|j: int| i <= j < l ==> (#[trigger] inj_len_at(s, j)) is None,
    ensures
        first_inj_from(s, i) == Some(l),
    decreases l - i,
{
    if i < l {
        lemma_first_inj_build(s, i + 1, l);
    }
}

/// No character inside a matched pattern is an opening bracket: the
/// keyword letters and the white space in between are all something
/// else.
proof fn lemma_match_inner_chars(s: Seq<char>, i: int, q: int)
    requires
        inj_len_at(s, i) is Some,
        i <= q < i + inj_len_at(s, i).unwrap(),
        0 <= i <= s.len(),
    ensures
        s[q] != '[',
{
    let k1 = first_kw_len_at(s, i).unwrap();
    let w = space_run(s, i + k1);
    let k2 = second_kw_len_at(s, i + k1 + w).unwrap();
    lemma_space_run_bounds(s, i + k1);
    assert(fold_char('[') == '[');
    if q < i + k1 {
        if s[q] == '[' {
            if kw_at(s, kw_ignore(), i) {
                assert(fold_char(s[i + (q - i)]) == kw_ignore()[q - i]);
                assert(forall|j: int| 0 <= j < 6 ==> kw_ignore()[j] != '[');
            } else if kw_at(s, kw_disregard(), i) {
                assert(fold_char(s[i + (q - i)]) == kw_disregard()[q - i]);
                assert(forall|j: int| 0 <= j < 9 ==> kw_disregard()[j] != '[');
            } else {
                assert(kw_at(s, kw_forget(), i));
                assert(fold_char(s[i + (q - i)]) == kw_forget()[q - i]);
                assert(forall|j: int| 0 <= j < 6 ==> kw_forget()[j] != '[');
            }
        }
    } else if q < i + k1 + w {
        lemma_space_run_covers(s, i + k1, q);
        assert(!is_space('['));
    } else {
        let p = i + k1 + w;
        if s[q] == '[' {
            if kw_at(s, kw_previous(), p) {
                assert(fold_char(s[p + (q - p)]) == kw_previous()[q - p]);
                assert(forall|j: int| 0 <= j < 8 ==> kw_previous()[j] != '[');
            } else if kw_at(s, kw_above(), p) {
                assert(fold_char(s[p + (q - p)]) == kw_above()[q - p]);
                assert(forall|j: int| 0 <= j < 5 ==> kw_above()[j] != '[');
            } else {
                assert(kw_at(s, kw_all(), p));
                assert(fold_char(s[p + (q - p)]) == kw_all()[q - p]);
                assert(forall|j: int| 0 <= j < 3 ==> kw_all()[j] != '[');
            }
        }
    }
}

/// No first-group keyword can start inside the filtered token.
proof fn lemma_tok_blocks_first_kw(t: Seq<char>, off: int)
    requires
        t.len() >= 10,
        forall|k: int| 0 <= k < 10 ==> #[trigger] t[k] == filtered_token()[k],
        0 <= off < 10,
    ensures
        first_kw_len_at(t, off) is None,
{
    assert(t[off] == filtered_token()[off]);
    if off + 1 < 10 {
        assert(t[off + 1] == filtered_token()[off + 1]);
    }
    if kw_at(t, kw_ignore(), off) {
        assert(fold_char(t[off + 0]) == kw_ignore()[0]);
        assert(fold_char(t[off + 1]) == kw_ignore()[1]);
        assert(false);
    }
    if kw_at(t, kw_disregard(), off) {
        assert(fold_char(t[off + 0]) == kw_disregard()[0]);
        assert(fold_char(t[off + 1]) == kw_disregard()[1]);
        assert(false);
    }
    if kw_at(t, kw_forget(), off) {
        assert(fold_char(t[off + 0]) == kw_forget()[0]);
        assert(fold_char(t[off + 1]) == kw_forget()[1]);
        assert(false);
    }
}

/// A match that lies entirely before `bound` carries over to any text
/// that agrees with `a` up to `bound`.
proof fn lemma_inj_transfer(a: Seq<char>, b: Seq<char>, i: int, bound: int)
    requires
        0 <= i,
        inj_len_at(a, i) is Some,
        i + inj_len_at(a, i).unwrap() <= bound,
        bound <= a.len(),
        bound <= b.len(),
        forall|j: int| 0 <= j < bound ==> a[j] == b[j],
    ensures
        inj_len_at(b, i) is Some,
{
    let k1 = first_kw_len_at(a, i).unwrap();
    let w = space_run(a, i + k1);
    let k2 = second_kw_len_at(a, i + k1 + w).unwrap();
    lemma_space_run_bounds(a, i + k1);
    let p = i + k1;

    assert forall|kw: Seq<char>, at: int|
        0 <= at && at + kw.len() <= bound && kw_at(a, kw, at) implies #[trigger] kw_at(
        b,
        kw,
        at,
    ) by {
        assert forall|j: int| 0 <= j < kw.len() implies fold_char(b[at + j]) == kw[j] by {
            assert(a[at + j] == b[at + j]);
        }
    }
    assert(first_kw_len_at(b, i) == first_kw_len_at(a, i)) by {
        if kw_at(a, kw_ignore(), i) {
            assert(kw_at(b, kw_ignore(), i));
        } else if kw_at(a, kw_disregard(), i) {
            assert(kw_at(b, kw_disregard(), i));
            assert(!kw_at(b, kw_ignore(), i)) by {
                if kw_at(b, kw_ignore(), i) {
                    assert forall|j: int| 0 <= j < 6 implies fold_char(a[i + j])
                        == kw_ignore()[j] by {
                        assert(a[i + j] == b[i + j]);
                    }
                }
            }
        } else {
            assert(kw_at(a, kw_forget(), i));
            assert(kw_at(b, kw_forget(), i));
            assert(!kw_at(b, kw_ignore(), i)) by {
                if kw_at(b, kw_ignore(), i) {
                    assert forall|j: int| 0 <= j < 6 implies fold_char(a[i + j])
                        == kw_ignore()[j] by {
                        assert(a[i + j] == b[i + j]);
                    }
                }
            }
            assert(!kw_at(b, kw_disregard(), i)) by {
                if kw_at(b, kw_disregard(), i) {
                    assert forall|j: int| 0 <= j < 9 implies fold_char(a[i + j])
                        == kw_disregard()[j] by {
                        assert(a[i + j] == b[i + j]);
                    }
                }
            }
        }
    }

    // The white-space run carries over exactly: the same spaces lie
    // before the same non-space keyword head.
    assert(space_run(b, p) == w) by {
        assert forall|j: int| p <= j < p + w implies is_space(b[j]) by {
            lemma_space_run_covers(a, p, j);
            assert(a[j] == b[j]);
        }
        lemma_space_run_least(b, p, p + w);
        assert(!is_space(a[p + w])) by {
            if kw_at(a, kw_previous(), p + w) {
                assert(fold_char(a[p + w + 0]) == kw_previous()[0]);
                if is_space(a[p + w]) {
                    assert(fold_char(a[p + w]) == a[p + w]) by {
                        lemma_space_not_letter(a[p + w]);
                    }
                }
            } else if kw_at(a, kw_above(), p + w) {
                assert(fold_char(a[p + w + 0]) == kw_above()[0]);
                if is_space(a[p + w]) {
                    lemma_space_not_letter(a[p + w]);
                }
            } else {
                assert(kw_at(a, kw_all(), p + w));
                assert(fold_char(a[p + w + 0]) == kw_all()[0]);
                if is_space(a[p + w]) {
                    lemma_space_not_letter(a[p + w]);
                }
            }
        }
        assert(b[p + w] == a[p + w]);
        if space_run(b, p) > w {
            lemma_space_run_covers(b, p, p + w);
        }
        lemma_space_run_bounds(b, p);
    }

    assert(second_kw_len_at(b, p + w) is Some) by {
        if kw_at(a, kw_previous(), p + w) {
            assert(kw_at(b, kw_previous(), p + w));
        } else if kw_at(a, kw_above(), p + w) {
            assert(kw_at(b, kw_above(), p + w));
        } else {
            assert(kw_at(a, kw_all(), p + w));
            assert(kw_at(b, kw_all(), p + w));
        }
    }
}

/// A white-space character folds to itself and is no keyword letter.
proof fn lemma_space_not_letter(c: char)
    requires
        is_space(c),
    ensures
        fold_char(c) == c,
        c != 'p' && c != 'a' && c != 'i' && c != 'd' && c != 'f',
{
}

/// Where the first match lies at `l`, the filter copies the literal
/// prefix, replaces the match, and recurses after it.
#[verifier::rlimit(100)]
proof fn lemma_filter_structure(s: Seq<char>, l: int)
    requires
        first_inj_from(s, 0) == Some(l),
    ensures
        ({
            let m = inj_len_at(s, l).unwrap();
            inj_filter(s) == s.take(l) + filtered_token() + inj_filter(s.skip(l + m))
        }),
    decreases l,
{
    lemma_first_inj_some(s, 0, l);
    let m = inj_len_at(s, l).unwrap();
    lemma_inj_len_bounds(s, l);
    if l == 0 {
        assert(s.take(0) + filtered_token() + inj_filter(s.skip(m)) =~= filtered_token()
            + inj_filter(s.skip(m)));
    } else {
        assert(inj_len_at(s, 0) is None);
        let rest = s.skip(1);
        assert(inj_filter(s) == seq![s[0]] + inj_filter(rest));
        lemma_inj_at_offset(s, 1, l - 1);
        assert(inj_len_at(rest, l - 1) == inj_len_at(s, l));
        assert forall|j: int| 0 <= j < l - 1 implies (#[trigger] inj_len_at(rest, j))
            is None by {
            lemma_inj_at_offset(s, 1, j);
        }
        lemma_first_inj_build(rest, 0, l - 1);
        lemma_filter_structure(rest, l - 1);
        let mr = inj_len_at(rest, l - 1).unwrap();
        assert(mr == m);
        assert(seq![s[0]] + (rest.take(l - 1) + filtered_token() + inj_filter(
            rest.skip(l - 1 + m),
        )) =~= s.take(l) + filtered_token() + inj_filter(rest.skip(l - 1 + m)));
        assert(rest.skip(l - 1 + m) =~= s.skip(l + m));
    }
}

/// The filter leaves no injection pattern behind: its output contains
/// no match anywhere, so a second pass finds nothing to replace.
#[verifier::rlimit(100)]
pub proof fn lemma_filter_output_clean(s: Seq<char>)
    ensures
        forall|i: int| (#[trigger] inj_len_at(inj_filter(s), i)) is None,
    decreases s.len(),
{
    match first_inj_from(s, 0) {
        None => {
            assert forall|i: int| (#[trigger] inj_len_at(s, i)) is None by {
                if i < 0 {
                    lemma_inj_out_of_range(s, i);
                } else {
                    lemma_first_inj_none(s, 0, i);
                }
            }
            lemma_inj_filter_identity(s);
        },
        Some(l) => {
            lemma_first_inj_some(s, 0, l);
            let m = inj_len_at(s, l).unwrap();
            lemma_inj_len_bounds(s, l);
            lemma_filter_structure(s, l);
            let rest = s.skip(l + m);
            lemma_filter_output_clean(rest);
            let tail = inj_filter(rest);
            let out = inj_filter(s);
            assert(out == s.take(l) + filtered_token() + tail);
            assert(out.len() == l + 10 + tail.len());
            assert forall|i: int| (#[trigger] inj_len_at(out, i)) is None by {
                if i < 0 {
                    lemma_inj_out_of_range(out, i);
                } else if i >= l + 10 {
                    lemma_inj_at_offset(out, l + 10, i - (l + 10));
                    assert(out.skip(l + 10) =~= tail);
                    assert(inj_len_at(tail, i - (l + 10)) is None);
                } else if i >= l {
                    lemma_inj_at_offset(out, l, i - l);
                    let t = out.skip(l);
                    assert forall|k: int| 0 <= k < 10 implies #[trigger] t[k]
                        == filtered_token()[k] by {
                        assert(t[k] == out[l + k]);
                    }
                    lemma_tok_blocks_first_kw(t, i - l);
                } else {
                    if inj_len_at(out, i) is Some {
                        let m0 = inj_len_at(out, i).unwrap();
                        lemma_inj_len_bounds(out, i);
                        if i + m0 > l {
                            lemma_match_inner_chars(out, i, l);
                            assert(out[l] == filtered_token()[0]);
                            assert(false);
                        } else {
                            assert forall|j: int| 0 <= j < l implies out[j] == s[j] by {}
                            lemma_inj_transfer(out, s, i, l);
                            assert(inj_len_at(s, i) is None);
                            assert(false);
                        }
                    }
                }
            }
        },
    }
}

/// `b` is `a` with some backticks turned into apostrophes.
pub open spec fn tick_swapped(a: Seq<char>, b: Seq<char>) -> bool {
    &&& a.len() == b.len()
    &&& forall|j: int| 0 <= j < a.len() ==> #[trigger] b[j] == a[j] || (a[j] == '`' && b[j] == '\'')
}

/// Defusing fences keeps every character except that some backticks
/// become apostrophes.
proof fn lemma_escape_pointwise(t: Seq<char>)
    ensures
        tick_swapped(t, replace_all_seq(t, fence(), fence_replacement())),
    decreases t.len(),
{
    let out = replace_all_seq(t, fence(), fence_replacement());
    if t.len() == 0 {
    } else if is_match_at(t, fence(), 0) {
        lemma_escape_pointwise(t.skip(3));
        assert forall|j: int| 0 <= j < t.len() implies #[trigger] out[j] == t[j] || (t[j] == '`'
            && out[j] == '\'') by {
            if j < 3 {
                assert(t[0 + j] == fence()[j]);
                assert(out[j] == fence_replacement()[j]);
            } else {
                assert(out[j] == replace_all_seq(t.skip(3), fence(), fence_replacement())[j - 3]);
                assert(t.skip(3)[j - 3] == t[j]);
            }
        }
    } else {
        lemma_escape_pointwise(t.skip(1));
        assert forall|j: int| 0 <= j < t.len() implies #[trigger] out[j] == t[j] || (t[j] == '`'
            && out[j] == '\'') by {
            if j >= 1 {
                assert(out[j] == replace_all_seq(t.skip(1), fence(), fence_replacement())[j - 1]);
                assert(t.skip(1)[j - 1] == t[j]);
            }
        }
    }
}

/// Defusing fences leaves no fence behind.
proof fn lemma_escape_no_fence(t: Seq<char>)
    ensures
        forall|i: int| !(#[trigger] is_match_at(
            replace_all_seq(t, fence(), fence_replacement()),
            fence(),
            i,
        )),
    decreases t.len(),
{
    let out = replace_all_seq(t, fence(), fence_replacement());
    if t.len() == 0 {
    } else if is_match_at(t, fence(), 0) {
        lemma_escape_no_fence(t.skip(3));
        let rest = replace_all_seq(t.skip(3), fence(), fence_replacement());
        assert forall|i: int| !(#[trigger] is_match_at(out, fence(), i)) by {
            if is_match_at(out, fence(), i) {
                if i < 3 {
                    assert(out[i + 0] == fence()[0]);
                    assert(out[i] == fence_replacement()[i]);
                } else {
                    crate::strutil::lemma_match_at_skip(out, fence(), i);
                    assert(is_match_at(out.skip(i), fence(), 0));
                    assert(out.skip(i) =~= rest.skip(i - 3));
                    crate::strutil::lemma_match_at_skip(rest, fence(), i - 3);
                }
            }
        }
    } else {
        lemma_escape_no_fence(t.skip(1));
        lemma_escape_pointwise(t.skip(1));
        let rest = replace_all_seq(t.skip(1), fence(), fence_replacement());
        assert forall|i: int| !(#[trigger] is_match_at(out, fence(), i)) by {
            if is_match_at(out, fence(), i) {
                if i == 0 {
                    // All three characters would have to be backticks in
                    // the input as well, yet the input has no fence here.
                    assert(out[0int] == fence()[0]);
                    assert(out[1int] == fence()[1]);
                    assert(out[2int] == fence()[2]);
                    assert(out[0int] == t[0]);
                    assert(rest[0int] == out[1]);
                    assert(rest[1int] == out[2]);
                    assert(t.skip(1)[0] == t[1] && t.skip(1)[1] == t[2]);
                    assert(t[1] == '`' && t[2] == '`');
                    assert(is_match_at(t, fence(), 0));
                } else if i >= 1 {
                    crate::strutil::lemma_match_at_skip(out, fence(), i);
                    assert(out.skip(i) =~= rest.skip(i - 1));
                    crate::strutil::lemma_match_at_skip(rest, fence(), i - 1);
                }
            }
        }
    }
}

/// Swapping backticks for apostrophes changes no white space and no
/// keyword letter, so the injection pattern lies in one text exactly
/// where it lies in the other.
proof fn lemma_inj_tick_congruent(a: Seq<char>, b: Seq<char>, i: int)
    requires
        tick_swapped(a, b),
    ensures
        inj_len_at(a, i) == inj_len_at(b, i),
{
    assert forall|kw: Seq<char>, p: int|
        (forall|j: int| 0 <= j < kw.len() ==> #[trigger] kw[j] != '`' && kw[j] != '\'') implies (
    #[trigger] kw_at(a, kw, p)) == kw_at(b, kw, p) by {
        if kw_at(a, kw, p) {
            assert forall|j: int| 0 <= j < kw.len() implies fold_char(b[p + j]) == kw[j] by {
                if b[p + j] != a[p + j] {
                    assert(b[p + j] == '\'');
                    assert(fold_char('\'') == '\'');
                }
            }
        }
        if kw_at(b, kw, p) {
            assert forall|j: int| 0 <= j < kw.len() implies fold_char(a[p + j]) == kw[j] by {
                if b[p + j] != a[p + j] {
                    assert(a[p + j] == '`');
                    assert(fold_char('`') == '`');
                }
            }
        }
    }
    assert(forall|j: int| 0 <= j < 6 ==> #[trigger] kw_ignore()[j] != '`' && kw_ignore()[j] != '\'');
    assert(forall|j: int|
        0 <= j < 9 ==> #[trigger] kw_disregard()[j] != '`' && kw_disregard()[j] != '\'');
    assert(forall|j: int| 0 <= j < 6 ==> #[trigger] kw_forget()[j] != '`' && kw_forget()[j] != '\'');
    assert(forall|j: int|
        0 <= j < 8 ==> #[trigger] kw_previous()[j] != '`' && kw_previous()[j] != '\'');
    assert(forall|j: int| 0 <= j < 5 ==> #[trigger] kw_above()[j] != '`' && kw_above()[j] != '\'');
    assert(forall|j: int| 0 <= j < 3 ==> #[trigger] kw_all()[j] != '`' && kw_all()[j] != '\'');
    lemma_space_run_tick_congruent(a, b, i + 6);
    lemma_space_run_tick_congruent(a, b, i + 9);
}

proof fn lemma_space_run_tick_congruent(a: Seq<char>, b: Seq<char>, p: int)
    requires
        tick_swapped(a, b),
    ensures
        space_run(a, p) == space_run(b, p),
    decreases a.len() - p,
{
    if 0 <= p < a.len() {
        assert(is_space(a[p]) == is_space(b[p])) by {
            if b[p] != a[p] {
                assert(a[p] == '`' && b[p] == '\'');
            }
        }
        if is_space(a[p]) {
            lemma_space_run_tick_congruent(a, b, p + 1);
        }
    }
}

/// No character inside a matched pattern equals `c`, for any `c` that
/// is no white space, folds to itself, and is none of the keyword
/// letters.
proof fn lemma_match_inner_not(s: Seq<char>, i: int, q: int, c: char)
    requires
        inj_len_at(s, i) is Some,
        i <= q < i + inj_len_at(s, i).unwrap(),
        0 <= i <= s.len(),
        !is_space(c),
        fold_char(c) == c,
        forall|j: int| 0 <= j < 6 ==> #[trigger] kw_ignore()[j] != c,
        forall|j: int| 0 <= j < 9 ==> #[trigger] kw_disregard()[j] != c,
        forall|j: int| 0 <= j < 6 ==> #[trigger] kw_forget()[j] != c,
        forall|j: int| 0 <= j < 8 ==> #[trigger] kw_previous()[j] != c,
        forall|j: int| 0 <= j < 5 ==> #[trigger] kw_above()[j] != c,
        forall|j: int| 0 <= j < 3 ==> #[trigger] kw_all()[j] != c,
    ensures
        s[q] != c,
{
    let k1 = first_kw_len_at(s, i).unwrap();
    let w = space_run(s, i + k1);
    lemma_space_run_bounds(s, i + k1);
    if q < i + k1 {
        if s[q] == c {
            if kw_at(s, kw_ignore(), i) {
                assert(fold_char(s[i + (q - i)]) == kw_ignore()[q - i]);
            } else if kw_at(s, kw_disregard(), i) {
                assert(fold_char(s[i + (q - i)]) == kw_disregard()[q - i]);
            } else {
                assert(kw_at(s, kw_forget(), i));
                assert(fold_char(s[i + (q - i)]) == kw_forget()[q - i]);
            }
        }
    } else if q < i + k1 + w {
        lemma_space_run_covers(s, i + k1, q);
    } else {
        let p = i + k1 + w;
        if s[q] == c {
            if kw_at(s, kw_previous(), p) {
                assert(fold_char(s[p + (q - p)]) == kw_previous()[q - p]);
            } else if kw_at(s, kw_above(), p) {
                assert(fold_char(s[p + (q - p)]) == kw_above()[q - p]);
            } else {
                assert(kw_at(s, kw_all(), p));
                assert(fold_char(s[p + (q - p)]) == kw_all()[q - p]);
            }
        }
    }
}

/// A prefix of clean content is clean: it holds no injection pattern
/// and no fence.
proof fn lemma_clean_take(z: Seq<char>, n: int)
    requires
        0 <= n <= z.len(),
        forall|i: int| (#[trigger] inj_len_at(z, i)) is None,
        forall|i: int| !(#[trigger] is_match_at(z, fence(), i)),
    ensures
        forall|i: int| (#[trigger] inj_len_at(z.take(n), i)) is None,
        forall|i: int| !(#[trigger] is_match_at(z.take(n), fence(), i)),
{
    let t = z.take(n);
    assert forall|i: int| (#[trigger] inj_len_at(t, i)) is None by {
        if inj_len_at(t, i) is Some {
            if i < 0 {
                lemma_inj_out_of_range(t, i);
            } else {
                lemma_inj_len_bounds(t, i);
                lemma_inj_transfer(t, z, i, n);
            }
        }
    }
    assert forall|i: int| !(#[trigger] is_match_at(t, fence(), i)) by {
        if is_match_at(t, fence(), i) {
            assert forall|j: int| 0 <= j < 3 implies z[i + j] == fence()[j] by {
                assert(t[i + j] == z[i + j]);
            }
            assert(is_match_at(z, fence(), i));
        }
    }
}

/// Appending the truncation marker to clean content keeps it clean:
/// the marker's characters can neither extend nor start a pattern or a
/// fence.
proof fn lemma_clean_with_marker(t: Seq<char>)
    requires
        forall|i: int| (#[trigger] inj_len_at(t, i)) is None,
        forall|i: int| !(#[trigger] is_match_at(t, fence(), i)),
    ensures
        forall|i: int| (#[trigger] inj_len_at(t + truncation_marker(), i)) is None,
        forall|i: int| !(#[trigger] is_match_at(t + truncation_marker(), fence(), i)),
{
    let y = t + truncation_marker();
    let n = t.len() as int;
    assert(fold_char('.') == '.');
    assert(!is_space('.'));
    assert(forall|j: int| 0 <= j < 6 ==> #[trigger] kw_ignore()[j] != '.');
    assert(forall|j: int| 0 <= j < 9 ==> #[trigger] kw_disregard()[j] != '.');
    assert(forall|j: int| 0 <= j < 6 ==> #[trigger] kw_forget()[j] != '.');
    assert(forall|j: int| 0 <= j < 8 ==> #[trigger] kw_previous()[j] != '.');
    assert(forall|j: int| 0 <= j < 5 ==> #[trigger] kw_above()[j] != '.');
    assert(forall|j: int| 0 <= j < 3 ==> #[trigger] kw_all()[j] != '.');
    assert forall|i: int| (#[trigger] inj_len_at(y, i)) is None by {
        if inj_len_at(y, i) is Some {
            if i < 0 || i > y.len() - 10 {
                lemma_inj_out_of_range(y, i);
            } else if i >= n {
                // A first-group keyword would have to start inside the
                // marker, whose first nine characters head no keyword
                // and whose tail is too short for one.
                let off = i - n;
                assert(off + 10 <= 14);
                assert(y[i] == truncation_marker()[off]);
                if kw_at(y, kw_ignore(), i) {
                    assert(fold_char(y[i + 0]) == kw_ignore()[0]);
                    assert(false);
                }
                if kw_at(y, kw_disregard(), i) {
                    assert(fold_char(y[i + 0]) == kw_disregard()[0]);
                    assert(false);
                }
                if kw_at(y, kw_forget(), i) {
                    assert(fold_char(y[i + 0]) == kw_forget()[0]);
                    assert(false);
                }
            } else {
                let m0 = inj_len_at(y, i).unwrap();
                lemma_inj_len_bounds(y, i);
                if i + m0 > n {
                    lemma_match_inner_not(y, i, n, '.');
                    assert(y[n] == truncation_marker()[0]);
                    assert(false);
                } else {
                    assert forall|j: int| 0 <= j < n implies y[j] == t[j] by {}
                    lemma_inj_transfer(y, t, i, n);
                    assert(false);
                }
            }
        }
    }
    assert forall|i: int| !(#[trigger] is_match_at(y, fence(), i)) by {
        if is_match_at(y, fence(), i) {
            assert(y[i + 0] == fence()[0]);
            if i >= n {
                assert(y[i] == truncation_marker()[i - n]);
            } else if i + 3 > n {
                assert(y[i + (n - i)] == fence()[n - i]);
                assert(y[n] == truncation_marker()[0]);
            } else {
                assert forall|j: int| 0 <= j < 3 implies t[i + j] == fence()[j] by {
                    assert(y[i + j] == t[i + j]);
                }
                assert(is_match_at(t, fence(), i));
            }
        }
    }
}

/// Sanitizing is idempotent: a second pass over sanitized content
/// changes nothing, for every input.
pub proof fn lemma_sanitize_idempotent(s: Seq<char>)
    ensures
        sanitize_content(sanitize_content(s)) == sanitize_content(s),
{
    let f = inj_filter(s);
    let z = replace_all_seq(f, fence(), fence_replacement());
    let y = truncate_content(z);

    // The filtered text holds no pattern; defusing fences changes no
    // letter and no space, so the escaped text holds none either, and
    // it holds no fence by construction.
    lemma_filter_output_clean(s);
    lemma_escape_pointwise(f);
    assert forall|i: int| (#[trigger] inj_len_at(z, i)) is None by {
        lemma_inj_tick_congruent(f, z, i);
    }
    lemma_escape_no_fence(f);

    // Truncation preserves cleanliness.
    if z.len() > MAX_CONTENT_LENGTH {
        lemma_clean_take(z, MAX_CONTENT_LENGTH as int);
        lemma_clean_with_marker(z.take(MAX_CONTENT_LENGTH as int));
    }
    assert(forall|i: int| (#[trigger] inj_len_at(y, i)) is None);
    assert(forall|i: int| !(#[trigger] is_match_at(y, fence(), i)));

    // So the second pass filters nothing, defuses nothing, and cuts at
    // the same place.
    lemma_inj_filter_identity(y);
    lemma_replace_identity(y, fence(), fence_replacement());
    if z.len() > MAX_CONTENT_LENGTH {
        assert(y.len() == MAX_CONTENT_LENGTH + 14);
        assert(truncate_content(y) =~= y.take(MAX_CONTENT_LENGTH as int) + truncation_marker());
        assert(y.take(MAX_CONTENT_LENGTH as int) =~= z.take(MAX_CONTENT_LENGTH as int));
        assert(truncate_content(y) =~= y);
    }
    assert(sanitize_content(y) == y);
}

/// Sanitized content never outgrows the maximum length plus the
/// truncation marker, whatever the input; and the cut, when it comes,
/// falls between characters, never inside one.
pub proof fn lemma_sanitize_length_bound(s: Seq<char>)
    ensures
        sanitize_content(s).len() <= MAX_CONTENT_LENGTH + truncation_marker().len(),
{
}

/// A text without an injection pattern passes the filter unchanged.
#[verifier::rlimit(60)]
pub proof fn lemma_inj_filter_identity(s: Seq<char>)
    requires
        forall|i: int| (#[trigger] inj_len_at(s, i)) is None,
    ensures
        inj_filter(s) == s,
    decreases s.len(),
{
    if s.len() > 0 {
        assert(inj_len_at(s, 0) is None);
        assert forall|i: int| (#[trigger] inj_len_at(s.skip(1), i)) is None by {
            if 0 <= i <= s.len() - 1 {
                lemma_inj_at_skip(s.skip(1), i);
                assert(s.skip(1).skip(i) =~= s.skip(1 + i));
                lemma_inj_at_skip(s, 1 + i);
                assert(inj_len_at(s, 1 + i) is None);
            } else if i < 0 {
                assert(!kw_at(s.skip(1), kw_ignore(), i));
                assert(!kw_at(s.skip(1), kw_disregard(), i));
                assert(!kw_at(s.skip(1), kw_forget(), i));
            } else {
                lemma_inj_out_of_range(s.skip(1), i);
            }
        }
        lemma_inj_filter_identity(s.skip(1));
        assert(inj_filter(s) =~= s);
    }
}

/// A text without an occurrence of the pattern passes replacement
/// unchanged.
pub proof fn lemma_replace_identity(s: Seq<char>, pat: Seq<char>, rep: Seq<char>)
    requires
        pat.len() > 0,
        forall|i: int| !(#[trigger] is_match_at(s, pat, i)),
    ensures
        replace_all_seq(s, pat, rep) == s,
    decreases s.len(),
{
    if s.len() > 0 {
        assert(!is_match_at(s, pat, 0));
        assert forall|i: int| !(#[trigger] is_match_at(s.skip(1), pat, i)) by {
            if is_match_at(s.skip(1), pat, i) {
                crate::strutil::lemma_match_at_skip(s.skip(1), pat, i);
                assert(is_match_at(s.skip(1).skip(i), pat, 0));
                assert(s.skip(1).skip(i) =~= s.skip(1 + i));
                crate::strutil::lemma_match_at_skip(s, pat, 1 + i);
                assert(is_match_at(s, pat, 1 + i));
            }
        }
        lemma_replace_identity(s.skip(1), pat, rep);
        assert(replace_all_seq(s, pat, rep) =~= s);
    }
}

/// Clean content is a fixed point of sanitization: a text with no
/// injection pattern, no fence, and at most the maximum length passes
/// through unchanged — so sanitizing it twice is sanitizing it once.
pub proof fn lemma_sanitize_fixed_on_clean(s: Seq<char>)
    requires
        forall|i: int| (#[trigger] inj_len_at(s, i)) is None,
        forall|i: int| !(#[trigger] is_match_at(s, fence(), i)),
        s.len() <= MAX_CONTENT_LENGTH,
    ensures
        sanitize_content(s) == s,
        sanitize_content(sanitize_content(s)) == sanitize_content(s),
{
    lemma_inj_filter_identity(s);
    reveal_strlit("```");
    assert(fence().len() == 3);
    lemma_replace_identity(s, fence(), fence_replacement());
}

/// Sanitize user-provided content before it enters a prompt: filter
/// injection patterns, defuse triple-backtick fences, truncate at the
/// maximum length. Works character by character, so multi-byte
/// characters are never cut apart.
pub fn sanitize_user_content(text: &str) -> (r: String)
    ensures
        r@ == sanitize_content(text@),
{
    let cs = chars_of(text);
    let filtered = inj_filter_x(&cs);

    let fence_pat = chars_of("```");
    let fence_rep = chars_of("'''");
    proof {
        reveal_strlit("```");
        reveal_strlit("'''");
        assert(fence_pat@ =~= fence());
        assert(fence_rep@ =~= fence_replacement());
    }
    let escaped = replace_chars(&filtered, &fence_pat, &fence_rep);

    let mut content = escaped;
    if content.len() > MAX_CONTENT_LENGTH {
        content.truncate(MAX_CONTENT_LENGTH);
        let marker = chars_of("...[truncated]");
        proof {
            reveal_strlit("...[truncated]");
            assert(marker@ =~= truncation_marker());
        }
        append_chars(&mut content, &marker);
    }
    string_from_chars(&content)
}

/// Sanitize a chat title.
pub fn sanitize_chat_title(title: &str) -> (r: String)
    ensures
        r@ == sanitize_content(title@),
{
    sanitize_user_content(title)
}

/// Sanitize a sender name.
pub fn sanitize_sender_name(name: &str) -> (r: String)
    ensures
        r@ == sanitize_content(name@),
{
    sanitize_user_content(name)
}

/// Sanitize message text.
pub fn sanitize_message_text(text: &str) -> (r: String)
    ensures
        r@ == sanitize_content(text@),
{
    sanitize_user_content(text)
}

} // verus!

//! Recovery of the JSON object inside an LLM reply that may wrap it in
//! markdown fences or surrounding prose: the raw content first, then the
//! fenced block, then the span from the first opening brace to the last
//! closing one.

use vstd::prelude::*;
use crate::strutil::{
    chars_of, string_from_chars, trimmed, trim_chars, find_idx, find_from, lemma_find_idx_some,
    lemma_find_idx_none, rfind_char, rfind_char_x, sub_chars, is_match_at,
};
use crate::sanitize::{space_run, lemma_space_run_least, lemma_space_run_at_most};

verus! {

/// The span from the first `{` to the last `}`, when the first opening
/// brace comes before the last closing one.
pub open spec fn brace_span(s: Seq<char>) -> Option<Seq<char>> {
    match (find_idx(s, "{"@, 0), rfind_char(s, '}')) {
        (Some(a), Some(b)) => if a < b {
            Some(s.subrange(a, b + 1))
        } else {
            None
        },
        _ => None,
    }
}

/// What JSON extraction yields for a reply: the content itself when it
/// opens with a brace after leading white space; else the trimmed body
/// of the first fenced block when that opens with a brace; else the
/// brace span.
pub open spec fn extract_json_text(s: Seq<char>) -> Option<Seq<char>> {
    let w = space_run(s, 0);
    if w < s.len() && s[w] == '{' {
        Some(s)
    } else {
        match find_idx(s, "```"@, 0) {
            Some(f) => {
                let after = s.skip(f + 3);
                let inner = match find_idx(after, "\n"@, 0) {
                    Some(nl) => after.skip(nl + 1),
                    None => after,
                };
                match find_idx(inner, "```"@, 0) {
                    Some(e) => {
                        let extracted = trimmed(inner.take(e));
                        if extracted.len() > 0 && extracted[0] == '{' {
                            Some(extracted)
                        } else {
                            brace_span(s)
                        }
                    },
                    None => brace_span(s),
                }
            },
            None => brace_span(s),
        }
    }
}

fn brace_span_x(cs: &Vec<char>) -> (r: Option<Vec<char>>)
    ensures
        match r {
            Some(v) => brace_span(cs@) == Some(v@),
            None => brace_span(cs@) is None,
        },
{
    let open_pat = chars_of("{");
    proof {
        reveal_strlit("{");
        assert(open_pat@.len() == 1);
    }
    let a = match find_from(cs, &open_pat, 0) {
        Some(a) => {
            proof {
                lemma_find_idx_some(cs@, "{"@, 0, a as int);
            }
            a
        },
        None => {
            proof {
                lemma_find_idx_none(cs@, "{"@, 0);
            }
            return None;
        },
    };
    let b = match rfind_char_x(cs, '}') {
        Some(b) => b,
        None => {
            return None;
        },
    };
    if a < b {
        let n = cs.len();
        assert(cs@.len() == n <= usize::MAX);
        Some(sub_chars(cs, a, b + 1))
    } else {
        None
    }
}

/// Extract the JSON object from an LLM reply that may wrap it in fences
/// or extra text.
pub fn extract_json(content: &str) -> (r: Option<String>)
    ensures
        match r {
            Some(v) => extract_json_text(content@) == Some(v@),
            None => extract_json_text(content@) is None,
        },
{
    let cs = chars_of(content);
    let n = cs.len();

    // Raw content already opening with a brace.
    let mut w: usize = 0;
    proof {
        crate::sanitize::lemma_space_run_bounds(cs@, 0);
    }
    while w < n && crate::strutil::is_space_char(cs[w])
        invariant
            n == cs@.len() <= usize::MAX,
            cs@ == content@,
            0 <= w <= n,
            space_run(cs@, 0) >= w,
            forall|k: int| 0 <= k < w ==> crate::strutil::is_space(cs@[k]),
        decreases n - w,
    {
        proof {
            lemma_space_run_least(cs@, 0, w + 1);
        }
        w += 1;
    }
    proof {
        crate::sanitize::lemma_space_run_bounds(cs@, 0);
        if w < n {
            lemma_space_run_at_most(cs@, w as int);
        }
    }
    if w < n && cs[w] == '{' {
        proof {
            assert(space_run(cs@, 0) == w);
        }
        let out = sub_chars(&cs, 0, n);
        proof {
            assert(out@ =~= cs@);
        }
        return Some(string_from_chars(&out));
    }
    proof {
        if w == n {
            assert(space_run(cs@, 0) == n);
        } else {
            assert(space_run(cs@, 0) == w);
        }
    }

    // A fenced block whose body opens with a brace.
    let fence_pat = chars_of("```");
    let nl_pat = chars_of("\n");
    proof {
        reveal_strlit("```");
        reveal_strlit("\n");
        assert(fence_pat@.len() == 3);
        assert(nl_pat@.len() == 1);
    }
    let fence_at = match find_from(&cs, &fence_pat, 0) {
        Some(f) => {
            proof {
                lemma_find_idx_some(cs@, "```"@, 0, f as int);
            }
            Some(f)
        },
        None => {
            proof {
                lemma_find_idx_none(cs@, "```"@, 0);
            }
            None
        },
    };
    if let Some(f) = fence_at {
        let after = sub_chars(&cs, f + 3, n);
        proof {
            assert(after@ =~= cs@.skip(f + 3));
        }
        let inner = match find_from(&after, &nl_pat, 0) {
            Some(nl) => {
                proof {
                    lemma_find_idx_some(after@, "\n"@, 0, nl as int);
                }
                let v = sub_chars(&after, nl + 1, after.len());
                proof {
                    assert(v@ =~= after@.skip(nl + 1));
                }
                v
            },
            None => {
                proof {
                    lemma_find_idx_none(after@, "\n"@, 0);
                }
                after
            },
        };
        match find_from(&inner, &fence_pat, 0) {
            Some(e) => {
                proof {
                    lemma_find_idx_some(inner@, "```"@, 0, e as int);
                }
                let body = sub_chars(&inner, 0, e);
                proof {
                    assert(body@ =~= inner@.take(e as int));
                }
                let extracted = trim_chars(&body);
                if extracted.len() > 0 && extracted[0] == '{' {
                    return Some(string_from_chars(&extracted));
                }
            },
            None => {
                proof {
                    lemma_find_idx_none(inner@, "```"@, 0);
                }
            },
        }
    }

    // The outermost brace span.
    match brace_span_x(&cs) {
        Some(v) => Some(string_from_chars(&v)),
        None => None,
    }
}



/// A reply that already is the JSON object comes back whole: when the
/// content opens with a brace after its leading white space, extraction
/// returns the content itself.
pub proof fn lemma_extract_raw_object(s: Seq<char>)
    requires
        ({
            let w = space_run(s, 0);
            w < s.len() && s[w] == '{'
        }),
    ensures
        extract_json_text(s) == Some(s),
{
}

/// A serialized object wrapped in prose comes back exactly: with no
/// braces or backticks in the prose around it and none of its own
/// backticks, the span from the first `{` to the last `}` is the
/// object.
pub proof fn lemma_extract_embedded_object(pre: Seq<char>, p: Seq<char>, suf: Seq<char>)
    requires
        p.len() >= 2,
        p[0] == '{',
        p.last() == '}',
        pre.len() > 0,
        !crate::strutil::is_space(pre[0]),
        forall|k: int| 0 <= k < pre.len() ==> #[trigger] pre[k] != '{' && pre[k] != '`',
        forall|k: int| 0 <= k < p.len() ==> #[trigger] p[k] != '`',
        forall|k: int| 0 <= k < suf.len() ==> #[trigger] suf[k] != '}' && suf[k] != '`',
    ensures
        extract_json_text(pre + p + suf) == Some(p),
{
    reveal_strlit("{");
    reveal_strlit("```");
    assert("{"@.len() == 1 && "{"@[0] == '{');
    assert("```"@.len() == 3 && "```"@[0] == '`');
    let s = pre + p + suf;
    let n1 = pre.len() as int;
    let n2 = p.len() as int;

    assert(s[0] == pre[0]);
    assert(space_run(s, 0) == 0);

    assert forall|i: int| !(#[trigger] is_match_at(s, "```"@, i)) by {
        if is_match_at(s, "```"@, i) {
            assert(s[i + 0] == "```"@[0]);
            if i < n1 {
                assert(s[i] == pre[i]);
            } else if i < n1 + n2 {
                assert(s[i] == p[i - n1]);
            } else {
                assert(s[i] == suf[i - n1 - n2]);
            }
        }
    }
    lemma_find_idx_none(s, "```"@, 0);

    assert forall|k: int| 0 <= k < n1 implies !(#[trigger] is_match_at(s, "{"@, k)) by {
        if is_match_at(s, "{"@, k) {
            assert(s[k + 0] == "{"@[0]);
            assert(s[k] == pre[k]);
        }
    }
    assert(s[n1 + 0] == p[0]);
    assert(is_match_at(s, "{"@, n1));
    lemma_find_idx_some(s, "{"@, 0, n1);

    assert(s[n1 + n2 - 1] == p[n2 - 1]);
    assert forall|j: int| n1 + n2 - 1 < j < s.len() implies s[j] != '}' by {
        assert(s[j] == suf[j - n1 - n2]);
    }
    crate::strutil::lemma_rfind_at(s, '}', n1 + n2 - 1);

    assert(s.subrange(n1, n1 + n2) =~= p);
}

/// A serialized object inside one markdown fence comes back exactly:
/// with no backticks of its own, the fenced body, trimmed, is the
/// object.
pub proof fn lemma_extract_fenced_object(p: Seq<char>)
    requires
        p.len() >= 2,
        p[0] == '{',
        p.last() == '}',
        forall|k: int| 0 <= k < p.len() ==> #[trigger] p[k] != '`',
    ensures
        extract_json_text("```json\n"@ + p + "\n```"@) == Some(p),
{
    reveal_strlit("```json\n");
    reveal_strlit("\n```");
    reveal_strlit("```");
    reveal_strlit("\n");
    let head = "```json\n"@;
    let tail = "\n```"@;
    assert(head.len() == 8);
    assert(tail.len() == 4);
    let s = head + p + tail;
    let n2 = p.len() as int;

    assert(s[0] == head[0]);
    assert(s[0] == '`');
    assert(space_run(s, 0) == 0);
    assert(!crate::strutil::is_space(s[0]));

    // The opening fence is the first fence occurrence.
    assert(s[0int] == "```"@[0] && s[1int] == "```"@[1] && s[2int] == "```"@[2]);
    assert(is_match_at(s, "```"@, 0));
    lemma_find_idx_some(s, "```"@, 0, 0);

    let after = s.skip(3);
    assert(after =~= head.skip(3) + p + tail);
    assert(head.skip(3).len() == 5);

    // The language-tag line ends at the first newline, right before the
    // payload.
    assert forall|k: int| 0 <= k < 4 implies !(#[trigger] is_match_at(after, "\n"@, k)) by {
        if is_match_at(after, "\n"@, k) {
            assert(after[k + 0] == "\n"@[0]);
            assert(after[k] == head.skip(3)[k]);
        }
    }
    assert(after[4int] == head.skip(3)[4]);
    assert(is_match_at(after, "\n"@, 4));
    lemma_find_idx_some(after, "\n"@, 0, 4);

    let inner = after.skip(5);
    assert(inner =~= p + tail);

    // The closing fence is the first fence occurrence in the body.
    assert forall|k: int| 0 <= k < n2 + 1 implies !(#[trigger] is_match_at(inner, "```"@, k)) by {
        if is_match_at(inner, "```"@, k) {
            assert(inner[k + 0] == "```"@[0]);
            if k < n2 {
                assert(inner[k] == p[k]);
            } else {
                assert(inner[k] == tail[k - n2]);
                assert(tail[0] == '\n');
            }
        }
    }
    assert(inner[n2 + 1 + 0] == tail[1]);
    assert(inner[n2 + 1 + 1] == tail[2]);
    assert(inner[n2 + 1 + 2] == tail[3]);
    assert(is_match_at(inner, "```"@, n2 + 1));
    lemma_find_idx_some(inner, "```"@, 0, n2 + 1);

    let body = inner.take(n2 + 1);
    assert(body =~= p + seq!['\n']);
    assert(body[0] == p[0]);
    assert(!crate::strutil::is_space(body[0]));
    assert(body.last() == '\n');
    assert(crate::strutil::is_space('\n'));
    assert(body.drop_last() =~= p);
    assert(!crate::strutil::is_space(p[0]) && !crate::strutil::is_space(p.last()));
    assert(trimmed(body) == trimmed(p));
    assert(trimmed(p) == p);
}

/// Names the judgment of the JSON parser: whether the text is one
/// well-formed JSON value. A fixed function of the text alone.
pub uninterp spec fn is_json_text(s: Seq<char>) -> bool;

/// Relies on `serde_json::from_str` deserializing into an ignored
/// value: it accepts exactly the well-formed JSON texts, a deterministic
/// function of the input.
#[verifier::external_body]
fn json_accepts(s: &str) -> (r: bool)
    ensures
        r == is_json_text(s@),
{
    serde_json::from_str::<serde::de::IgnoredAny>(s).is_ok()
}

/// The diagnostic for a reply whose JSON could not be recovered: it
/// names the context and carries the original content for diagnosis.
pub open spec fn json_failure_text(context: Seq<char>, content: Seq<char>) -> Seq<char> {
    "JSON parse error for "@ + context + ": could not extract valid JSON from content: "@
        + content
}

/// Format the structured parse error for a reply that yielded no JSON.
pub fn json_parse_failure(context: &str, content: &str) -> (r: String)
    ensures
        r@ == json_failure_text(context@, content@),
{
    let mut out = chars_of("JSON parse error for ");
    let ctx = chars_of(context);
    crate::strutil::append_chars(&mut out, &ctx);
    let mid = chars_of(": could not extract valid JSON from content: ");
    crate::strutil::append_chars(&mut out, &mid);
    let body = chars_of(content);
    crate::strutil::append_chars(&mut out, &body);
    string_from_chars(&out)
}

/// Parse the JSON payload out of an LLM reply: the content itself when
/// it is well-formed JSON, else the extracted candidate when that is;
/// otherwise the structured error naming the context and carrying the
/// original content.
pub fn parse_json_reply(content: &str, context: &str) -> (r: Result<String, String>)
    ensures
        match r {
            Ok(v) => (is_json_text(content@) && v@ == content@) || (!is_json_text(content@)
                && extract_json_text(content@) == Some(v@) && is_json_text(v@)),
            Err(e) => {
                &&& e@ == json_failure_text(context@, content@)
                &&& !is_json_text(content@)
                &&& (extract_json_text(content@) is None || !is_json_text(
                    extract_json_text(content@).unwrap(),
                ))
            },
        },
{
    match extract_json_payload(content) {
        Some(v) => Ok(v),
        None => Err(json_parse_failure(context, content)),
    }
}

/// The JSON payload of an LLM reply: the content itself when it parses,
/// else the extracted candidate when that parses, else nothing.
pub fn extract_json_payload(content: &str) -> (r: Option<String>)
    ensures
        match r {
            Some(v) => (is_json_text(content@) && v@ == content@) || (!is_json_text(content@)
                && extract_json_text(content@) == Some(v@) && is_json_text(v@)),
            None => !is_json_text(content@) && (extract_json_text(content@) is None
                || !is_json_text(extract_json_text(content@).unwrap())),
        },
{
    if json_accepts(content) {
        let cs = chars_of(content);
        let out = string_from_chars(&cs);
        return Some(out);
    }
    match extract_json(content) {
        Some(candidate) => {
            if json_accepts(candidate.as_str()) {
                Some(candidate)
            } else {
                None
            }
        },
        None => None,
    }
}

} // verus!

use vstd::prelude::*;
use crate::model::UrlHitRegion;
use crate::text::{byte_len, chars_of, string_from_chars, is_control, is_control_char, is_white_space, is_whitespace, prefix_offsets, utf8_len};

verus! {

/// The characters of `http://`.
pub open spec fn http_scheme() -> Seq<char> {
    seq!['h', 't', 't', 'p', ':', '/', '/']
}

/// The characters of `https://`.
pub open spec fn https_scheme() -> Seq<char> {
    seq!['h', 't', 't', 'p', 's', ':', '/', '/']
}

/// `p` occurs in `t` starting at character index `i`.
pub open spec fn occurs_at(t: Seq<char>, i: int, p: Seq<char>) -> bool {
    0 <= i && i + p.len() <= t.len() && t.subrange(i, i + p.len()) == p
}

/// A URL scheme (`http://` or `https://`) starts at index `i`.
pub open spec fn scheme_at(t: Seq<char>, i: int) -> bool {
    occurs_at(t, i, http_scheme()) || occurs_at(t, i, https_scheme())
}

/// The length of the scheme that starts at `i`.
pub open spec fn scheme_len_at(t: Seq<char>, i: int) -> int {
    if occurs_at(t, i, https_scheme()) {
        8
    } else {
        7
    }
}

/// The first index at or after `from` where a scheme starts.
pub open spec fn next_scheme(t: Seq<char>, from: int) -> Option<int>
    decreases t.len() - from,
{
    if from >= t.len() {
        None
    } else if scheme_at(t, from) {
        Some(from)
    } else {
        next_scheme(t, from + 1)
    }
}

/// Characters that end a URL wherever they appear.
pub open spec fn stops_url(c: char) -> bool {
    is_white_space(c) || is_control_char(c)
}

/// Punctuation that is kept inside a URL only when more URL text follows it.
pub open spec fn is_trailing_punct(c: char) -> bool {
    c == '.' || c == ',' || c == ';' || c == '!' || c == '?'
}

/// Where a URL body that is scanned from `pos`, with `depth` brackets open, ends.
/// Brackets `(` `[` open and `)` `]` close; a closing bracket with none open ends the URL,
/// as does white space, a control character, or trailing punctuation.
pub open spec fn url_end(t: Seq<char>, pos: int, depth: nat) -> int
    decreases t.len() - pos,
{
    if pos < 0 || pos >= t.len() {
        pos
    } else {
        let c = t[pos];
        if stops_url(c) {
            pos
        } else if c == '(' || c == '[' {
            url_end(t, pos + 1, depth + 1)
        } else if c == ')' || c == ']' {
            if depth > 0 {
                url_end(t, pos + 1, (depth - 1) as nat)
            } else {
                pos
            }
        } else if is_trailing_punct(c) {
            if pos + 1 >= t.len() || stops_url(t[pos + 1]) {
                pos
            } else {
                url_end(t, pos + 1, depth)
            }
        } else {
            url_end(t, pos + 1, depth)
        }
    }
}

pub proof fn lemma_next_scheme(t: Seq<char>, from: int)
    requires
        0 <= from,
    ensures
        next_scheme(t, from) matches Some(s) ==> from <= s < t.len() && scheme_at(t, s) && forall|
            i: int,
        | from <= i < s ==> !scheme_at(t, i),
        next_scheme(t, from) is None ==> forall|i: int| from <= i < t.len() ==> !scheme_at(t, i),
    decreases t.len() - from,
{
    if from < t.len() && !scheme_at(t, from) {
        lemma_next_scheme(t, from + 1);
    }
}

pub proof fn lemma_url_end(t: Seq<char>, pos: int, depth: nat)
    requires
        0 <= pos <= t.len(),
    ensures
        pos <= url_end(t, pos, depth) <= t.len(),
        forall|i: int| pos <= i < url_end(t, pos, depth) ==> !stops_url(#[trigger] t[i]),
        forall|i: int|
            pos <= i < url_end(t, pos, depth) ==> !(is_trailing_punct(#[trigger] t[i]) && (i + 1
                == t.len() || stops_url(t[i + 1]))),
        ({
            let e = url_end(t, pos, depth);
            e == t.len() || stops_url(t[e]) || t[e] == ')' || t[e] == ']' || (is_trailing_punct(t[e])
                && (e + 1 == t.len() || stops_url(t[e + 1])))
        }),
    decreases t.len() - pos,
{
    if pos < t.len() {
        let c = t[pos];
        if stops_url(c) {
        } else if c == '(' || c == '[' {
            lemma_url_end(t, pos + 1, depth + 1);
        } else if c == ')' || c == ']' {
            if depth > 0 {
                lemma_url_end(t, pos + 1, (depth - 1) as nat);
            }
        } else if is_trailing_punct(c) {
            if !(pos + 1 >= t.len() || stops_url(t[pos + 1])) {
                lemma_url_end(t, pos + 1, depth);
            }
        } else {
            lemma_url_end(t, pos + 1, depth);
        }
    }
}

/// How a character changes the count of open brackets: `(` and `[` open one, `)` and `]`
/// close one.
pub open spec fn bracket_step(c: char) -> int {
    if c == '(' || c == '[' {
        1
    } else if c == ')' || c == ']' {
        -1
    } else {
        0
    }
}

/// The count of brackets opened and not closed in `t[a..b)`.
pub open spec fn bracket_depth(t: Seq<char>, a: int, b: int) -> int
    decreases b - a,
{
    if b <= a {
        0
    } else {
        bracket_depth(t, a, b - 1) + bracket_step(t[b - 1])
    }
}

/// Reading `t` from `a`, no prefix closes more brackets than it opened, and a closing
/// bracket right after the span ends it only when no bracket is open.
pub open spec fn brackets_ok(t: Seq<char>, a: int, e: int) -> bool {
    &&& forall|i: int| a < i <= e ==> #[trigger] bracket_depth(t, a, i) >= 0
    &&& (e < t.len() && (t[e] == ')' || t[e] == ']')) ==> bracket_depth(t, a, e) == 0
}

proof fn lemma_url_end_brackets(t: Seq<char>, a: int, pos: int, depth: nat)
    requires
        0 <= a <= pos <= t.len(),
        depth == bracket_depth(t, a, pos),
        forall|i: int| a < i <= pos ==> #[trigger] bracket_depth(t, a, i) >= 0,
    ensures
        brackets_ok(t, a, url_end(t, pos, depth)),
    decreases t.len() - pos,
{
    if pos < t.len() {
        let c = t[pos];
        assert(bracket_depth(t, a, pos + 1) == depth + bracket_step(c));
        if stops_url(c) {
        } else if c == '(' || c == '[' {
            lemma_url_end_brackets(t, a, pos + 1, depth + 1);
        } else if c == ')' || c == ']' {
            if depth > 0 {
                lemma_url_end_brackets(t, a, pos + 1, (depth - 1) as nat);
            }
        } else if is_trailing_punct(c) {
            if !(pos + 1 >= t.len() || stops_url(t[pos + 1])) {
                lemma_url_end_brackets(t, a, pos + 1, depth);
            }
        } else {
            lemma_url_end_brackets(t, a, pos + 1, depth);
        }
    }
}

/// Counting from `s` or from `a` is the same past `a` when `t[s..a)` holds no bracket.
proof fn lemma_bracket_shift(t: Seq<char>, s: int, a: int, i: int)
    requires
        s <= a <= i,
        forall|m: int| s <= m < a ==> bracket_step(#[trigger] t[m]) == 0,
    ensures
        bracket_depth(t, s, i) == bracket_depth(t, a, i),
    decreases i - s,
{
    if i > a {
        lemma_bracket_shift(t, s, a, i - 1);
    } else if i > s {
        lemma_bracket_shift(t, s, a - 1, i - 1);
        assert(bracket_depth(t, a - 1, i - 1) == 0);
    }
}

proof fn lemma_span_brackets(t: Seq<char>, s: int, a: int, e: int)
    requires
        s <= a <= e,
        forall|m: int| s <= m < a ==> bracket_step(#[trigger] t[m]) == 0,
        brackets_ok(t, a, e),
    ensures
        brackets_ok(t, s, e),
{
    assert forall|i: int| s < i <= e implies #[trigger] bracket_depth(t, s, i) >= 0 by {
        if i >= a {
            lemma_bracket_shift(t, s, a, i);
        } else {
            lemma_bracket_shift(t, s, i, i);
        }
    }
    lemma_bracket_shift(t, s, a, e);
}

/// The URL spans, as character index pairs, found by scanning `t` from `from`.
pub open spec fn url_spans_from(t: Seq<char>, from: int) -> Seq<(int, int)>
    decreases t.len() - from,
{
    if from < 0 || from >= t.len() {
        seq![]
    } else {
        match next_scheme(t, from) {
            None => seq![],
            Some(s) => {
                proof {
                    lemma_next_scheme(t, from);
                }
                let a = s + scheme_len_at(t, s);
                if a >= t.len() {
                    url_spans_from(t, s + 1)
                } else {
                    proof {
                        lemma_url_end(t, a, 0);
                    }
                    let e = url_end(t, a, 0);
                    seq![(s, e)] + url_spans_from(t, e)
                }
            },
        }
    }
}

/// The URL spans of `t`, as character index pairs.
pub open spec fn url_spans(t: Seq<char>) -> Seq<(int, int)> {
    url_spans_from(t, 0)
}

proof fn lemma_scheme_chars(t: Seq<char>, s: int)
    requires
        scheme_at(t, s),
    ensures
        s + scheme_len_at(t, s) <= t.len(),
        forall|i: int| s <= i < s + scheme_len_at(t, s) ==> !stops_url(#[trigger] t[i]),
        forall|i: int| s <= i < s + scheme_len_at(t, s) ==> !is_trailing_punct(#[trigger] t[i]),
        forall|i: int| s <= i < s + scheme_len_at(t, s) ==> bracket_step(#[trigger] t[i]) == 0,
{
    if occurs_at(t, s, https_scheme()) {
        assert forall|i: int| s <= i < s + 8 implies !stops_url(#[trigger] t[i]) && !is_trailing_punct(
            t[i],
        ) && bracket_step(t[i]) == 0 by {
            assert(t[i] == t.subrange(s, s + 8)[i - s]);
        }
    } else {
        assert forall|i: int| s <= i < s + 7 implies !stops_url(#[trigger] t[i]) && !is_trailing_punct(
            t[i],
        ) && bracket_step(t[i]) == 0 by {
            assert(t[i] == t.subrange(s, s + 7)[i - s]);
        }
    }
}

/// Spans found from `from` on lie at or after `from`, within `t`, start with a scheme,
/// hold no white space or control character, and come in order without overlap.
pub proof fn lemma_url_spans_from(t: Seq<char>, from: int)
    requires
        0 <= from,
    ensures
        forall|j: int|
            0 <= j < url_spans_from(t, from).len() ==> {
                let sp = #[trigger] url_spans_from(t, from)[j];
                &&& from <= sp.0 < sp.1 <= t.len()
                &&& scheme_at(t, sp.0)
                &&& forall|i: int| sp.0 <= i < sp.1 ==> !stops_url(#[trigger] t[i])
                &&& forall|i: int|
                    sp.0 <= i < sp.1 ==> !(is_trailing_punct(#[trigger] t[i]) && (i + 1 == t.len()
                        || stops_url(t[i + 1])))
                &&& url_stop(t, sp.1)
                &&& brackets_ok(t, sp.0, sp.1)
            },
        forall|j: int|
            0 <= j < url_spans_from(t, from).len() - 1 ==> (#[trigger] url_spans_from(t, from)[j]).1
                <= url_spans_from(t, from)[j + 1].0,
    decreases t.len() - from,
{
    if from < t.len() {
        lemma_next_scheme(t, from);
        match next_scheme(t, from) {
            None => {
                assert(url_spans_from(t, from).len() == 0);
            },
            Some(s) => {
                let a = s + scheme_len_at(t, s);
                if a >= t.len() {
                    lemma_url_spans_from(t, s + 1);
                    assert(url_spans_from(t, from) == url_spans_from(t, s + 1));
                } else {
                    lemma_url_end(t, a, 0);
                    lemma_scheme_chars(t, s);
                    let e = url_end(t, a, 0);
                    lemma_url_end_brackets(t, a, a, 0);
                    lemma_span_brackets(t, s, a, e);
                    lemma_url_spans_from(t, e);
                    let rest = url_spans_from(t, e);
                    let all = url_spans_from(t, from);
                    assert(all == seq![(s, e)] + rest);
                    assert forall|j: int| 0 <= j < all.len() implies {
                        let sp = #[trigger] all[j];
                        &&& from <= sp.0 < sp.1 <= t.len()
                        &&& scheme_at(t, sp.0)
                        &&& forall|i: int| sp.0 <= i < sp.1 ==> !stops_url(#[trigger] t[i])
                        &&& forall|i: int|
                            sp.0 <= i < sp.1 ==> !(is_trailing_punct(#[trigger] t[i]) && (i + 1
                                == t.len() || stops_url(t[i + 1])))
                        &&& url_stop(t, sp.1)
                        &&& brackets_ok(t, sp.0, sp.1)
                    } by {
                        if j > 0 {
                            assert(all[j] == rest[j - 1]);
                        }
                    }
                    assert forall|j: int| 0 <= j < all.len() - 1 implies (#[trigger] all[j]).1
                        <= all[j + 1].0 by {
                        if j > 0 {
                            assert(all[j] == rest[j - 1]);
                        }
                        assert(all[j + 1] == rest[j]);
                    }
                }
            },
        }
    }
}

/// Every URL span found in a text lies inside the text, begins with `http://` or `https://`,
/// contains no white space or control character, and the spans come in text order without
/// overlapping.
pub proof fn law_url_spans_well_formed(t: Seq<char>)
    ensures
        forall|j: int|
            0 <= j < url_spans(t).len() ==> {
                let sp = #[trigger] url_spans(t)[j];
                &&& 0 <= sp.0 < sp.1 <= t.len()
                &&& scheme_at(t, sp.0)
                &&& forall|i: int| sp.0 <= i < sp.1 ==> !stops_url(#[trigger] t[i])
            },
        forall|j: int|
            0 <= j < url_spans(t).len() - 1 ==> (#[trigger] url_spans(t)[j]).1 <= url_spans(
                t,
            )[j + 1].0,
{
    lemma_url_spans_from(t, 0);
}

/// Where a URL may stop: at the end of the text, before white space or a control character,
/// before a closing bracket, or before trailing punctuation that white space, a control
/// character or the end follows.
pub open spec fn url_stop(t: Seq<char>, e: int) -> bool {
    let ends = |k: int| k == t.len() || is_white_space(t[k]) || is_control_char(t[k]);
    ends(e) || t[e] == ')' || t[e] == ']' || ((t[e] == '.' || t[e] == ',' || t[e] == ';' || t[e]
        == '!' || t[e] == '?') && ends(e + 1))
}

/// A URL found in a text never takes in punctuation (`.` `,` `;` `!` `?`) that ends a
/// sentence, that is, one followed by white space, a control character or the end of the
/// text; nor white space or a control character itself. Each URL stops only where
/// `url_stop` allows. Its brackets balance: read from its start, it never closes more
/// brackets than it opened, and it stops at a closing bracket only when none is open.
pub proof fn law_url_leaves_out_trailing_punct(t: Seq<char>)
    ensures
        forall|j: int|
            0 <= j < url_spans(t).len() ==> {
                let sp = #[trigger] url_spans(t)[j];
                &&& forall|i: int|
                    sp.0 <= i < sp.1 ==> !is_white_space(#[trigger] t[i]) && !is_control_char(t[i])
                &&& forall|i: int|
                    sp.0 <= i < sp.1 && (t[i] == '.' || t[i] == ',' || t[i] == ';' || t[i] == '!'
                        || t[i] == '?') ==> i + 1 < t.len() && !is_white_space(t[i + 1])
                        && !is_control_char(#[trigger] t[i + 1])
                &&& url_stop(t, sp.1)
            },
        forall|j: int|
            0 <= j < url_spans(t).len() ==> brackets_ok(t, (#[trigger] url_spans(t)[j]).0, url_spans(t)[j].1),
{
    lemma_url_spans_from(t, 0);
    assert forall|j: int| 0 <= j < url_spans(t).len() implies {
        let sp = #[trigger] url_spans(t)[j];
        &&& forall|i: int|
            sp.0 <= i < sp.1 ==> !is_white_space(#[trigger] t[i]) && !is_control_char(t[i])
        &&& forall|i: int|
            sp.0 <= i < sp.1 && (t[i] == '.' || t[i] == ',' || t[i] == ';' || t[i] == '!' || t[i]
                == '?') ==> i + 1 < t.len() && !is_white_space(t[i + 1]) && !is_control_char(
                #[trigger] t[i + 1])
        &&& url_stop(t, sp.1)
    } by {
        let sp = url_spans(t)[j];
        assert forall|i: int| sp.0 <= i < sp.1 implies !is_white_space(#[trigger] t[i])
            && !is_control_char(t[i]) by {
            assert(!stops_url(t[i]));
        }
        assert forall|i: int|
            sp.0 <= i < sp.1 && (t[i] == '.' || t[i] == ',' || t[i] == ';' || t[i] == '!' || t[i]
                == '?') implies i + 1 < t.len() && !is_white_space(t[i + 1]) && !is_control_char(
            #[trigger] t[i + 1]) by {
            assert(is_trailing_punct(t[i]));
        }
    }
}

proof fn lemma_spans_cover(t: Seq<char>, from: int, i: int)
    requires
        0 <= from <= i,
        scheme_at(t, i),
        i + scheme_len_at(t, i) < t.len(),
    ensures
        exists|j: int|
            0 <= j < url_spans_from(t, from).len() && (#[trigger] url_spans_from(t, from)[j]).0 <= i
                < url_spans_from(t, from)[j].1,
    decreases t.len() - from,
{
    lemma_next_scheme(t, from);
    let s = next_scheme(t, from)->Some_0;
    let a = s + scheme_len_at(t, s);
    let all = url_spans_from(t, from);
    if a >= t.len() {
        assert(s != i);
        lemma_spans_cover(t, s + 1, i);
        assert(all == url_spans_from(t, s + 1));
    } else {
        lemma_url_end(t, a, 0);
        let e = url_end(t, a, 0);
        let rest = url_spans_from(t, e);
        assert(all == seq![(s, e)] + rest);
        if i < e {
            assert(all[0] == (s, e));
        } else {
            lemma_spans_cover(t, e, i);
            let j = choose|j: int| 0 <= j < rest.len() && (#[trigger] rest[j]).0 <= i < rest[j].1;
            assert(all[j + 1] == rest[j]);
        }
    }
}

/// No URL is missed: every `http://` or `https://` in a text with something after it lies
/// within one of the URLs found, either as the start of one or inside an earlier one.
pub proof fn law_every_scheme_is_covered(t: Seq<char>, i: int)
    requires
        scheme_at(t, i),
        i + scheme_len_at(t, i) < t.len(),
    ensures
        exists|j: int| 0 <= j < url_spans(t).len() && (#[trigger] url_spans(t)[j]).0 <= i < url_spans(t)[j].1,
{
    lemma_spans_cover(t, 0, i);
    let sp = url_spans_from(t, 0);
    let j = choose|j: int| 0 <= j < sp.len() && (#[trigger] sp[j]).0 <= i < sp[j].1;
    assert(url_spans(t)[j] == sp[j]);
}

proof fn lemma_no_scheme_no_spans(t: Seq<char>, from: int)
    requires
        0 <= from,
        forall|i: int| 0 <= i < t.len() ==> !scheme_at(t, i),
    ensures
        url_spans_from(t, from).len() == 0,
    decreases t.len() - from,
{
    if from < t.len() {
        lemma_next_scheme(t, from);
    }
}

/// A text in which neither `http://` nor `https://` occurs has no URL spans.
pub proof fn law_no_scheme_no_urls(t: Seq<char>)
    requires
        forall|i: int| 0 <= i < t.len() ==> !scheme_at(t, i),
    ensures
        url_spans(t).len() == 0,
{
    lemma_no_scheme_no_spans(t, 0);
}

/// A character index span converted to byte offsets.
pub open spec fn byte_span(t: Seq<char>, sp: (int, int)) -> (usize, usize) {
    (utf8_len(t.take(sp.0)) as usize, utf8_len(t.take(sp.1)) as usize)
}


fn http_pattern() -> (v: Vec<char>)
    ensures
        v@ == http_scheme(),
{
    let v = vec!['h', 't', 't', 'p', ':', '/', '/'];
    assert(v@ =~= http_scheme());
    v
}

fn https_pattern() -> (v: Vec<char>)
    ensures
        v@ == https_scheme(),
{
    let v = vec!['h', 't', 't', 'p', 's', ':', '/', '/'];
    assert(v@ =~= https_scheme());
    v
}

fn occurs_at_exec(t: &Vec<char>, i: usize, p: &Vec<char>) -> (b: bool)
    ensures
        b == occurs_at(t@, i as int, p@),
{
    if i > t.len() || p.len() > t.len() - i {
        return false;
    }
    let mut k: usize = 0;
    while k < p.len()
        invariant
            k <= p.len(),
            i + p.len() <= t.len(),
            forall|j: int| 0 <= j < k ==> t@[i + j] == p@[j],
        decreases p.len() - k,
    {
        if t[i + k] != p[k] {
            assert(t@.subrange(i as int, i + p.len())[k as int] != p@[k as int]);
            return false;
        }
        k += 1;
    }
    assert(t@.subrange(i as int, i + p.len()) =~= p@);
    true
}

/// The first index at or after `from` where a scheme starts, if any.
fn find_scheme(t: &Vec<char>, from: usize, http: &Vec<char>, https: &Vec<char>) -> (r: Option<usize>)
    requires
        http@ == http_scheme(),
        https@ == https_scheme(),
    ensures
        r == (match next_scheme(t@, from as int) {
            Some(s) => Some(s as usize),
            None => None::<usize>,
        }),
{
    let mut i = from;
    while i < t.len()
        invariant
            from <= i,
            http@ == http_scheme(),
            https@ == https_scheme(),
            next_scheme(t@, i as int) == next_scheme(t@, from as int),
        decreases t.len() - i,
    {
        if occurs_at_exec(t, i, http) || occurs_at_exec(t, i, https) {
            return Some(i);
        }
        i += 1;
    }
    None
}

/// Where the URL body that starts at `start` ends.
fn find_url_end(t: &Vec<char>, start: usize) -> (e: usize)
    requires
        start <= t.len(),
    ensures
        e == url_end(t@, start as int, 0),
{
    let mut pos = start;
    let mut depth: usize = 0;
    while pos < t.len()
        invariant
            start <= pos <= t.len(),
            depth <= pos - start,
            url_end(t@, pos as int, depth as nat) == url_end(t@, start as int, 0),
        decreases t.len() - pos,
    {
        let c = t[pos];
        if is_whitespace(c) || is_control(c) {
            return pos;
        } else if c == '(' || c == '[' {
            depth += 1;
        } else if c == ')' || c == ']' {
            if depth > 0 {
                depth -= 1;
            } else {
                return pos;
            }
        } else if c == '.' || c == ',' || c == ';' || c == '!' || c == '?' {
            if pos + 1 >= t.len() || is_whitespace(t[pos + 1]) || is_control(t[pos + 1]) {
                return pos;
            }
        }
        pos += 1;
    }
    pos
}

/// The URL spans of `t` as character index pairs.
fn url_char_spans(t: &Vec<char>) -> (r: Vec<(usize, usize)>)
    ensures
        r@.map_values(|p: (usize, usize)| (p.0 as int, p.1 as int)) == url_spans(t@),
{
    let http = http_pattern();
    let https = https_pattern();
    let mut results: Vec<(usize, usize)> = Vec::new();
    let ghost mut found: Seq<(int, int)> = seq![];
    let mut from: usize = 0;
    while from < t.len()
        invariant_except_break
            from <= t.len(),
            found + url_spans_from(t@, from as int) == url_spans(t@),
        invariant
            http@ == http_scheme(),
            https@ == https_scheme(),
            results@.map_values(|p: (usize, usize)| (p.0 as int, p.1 as int)) == found,
        ensures
            results@.map_values(|p: (usize, usize)| (p.0 as int, p.1 as int)) == url_spans(t@),
        decreases t.len() - from,
    {
        let ghost old_found = found;
        match find_scheme(t, from, &http, &https) {
            None => {
                assert(url_spans_from(t@, from as int) =~= seq![]);
                assert(found =~= found + url_spans_from(t@, from as int));
                break;
            },
            Some(s) => {
                proof {
                    lemma_next_scheme(t@, from as int);
                }
                let a = if occurs_at_exec(t, s, &https) {
                    s + 8
                } else {
                    s + 7
                };
                if a >= t.len() {
                    from = s + 1;
                } else {
                    proof {
                        lemma_url_end(t@, a as int, 0);
                    }
                    let e = find_url_end(t, a);
                    results.push((s, e));
                    proof {
                        found = found.push((s as int, e as int));
                        assert(seq![(s as int, e as int)] + url_spans_from(t@, e as int)
                            == url_spans_from(t@, from as int));
                        assert(found + url_spans_from(t@, e as int) =~= old_found + (seq![
                            (s as int, e as int),
                        ] + url_spans_from(t@, e as int)));
                        assert(results@.map_values(|p: (usize, usize)| (p.0 as int, p.1 as int))
                            =~= found);
                    }
                    from = e;
                }
            },
        }
    }
    proof {
        if t.len() == 0 {
            assert(results@.map_values(|p: (usize, usize)| (p.0 as int, p.1 as int))
                =~= url_spans(t@));
        }
    }
    results
}

/// Finds every `http://` and `https://` URL in `text`, as byte offset pairs `(start, end)`
/// such that `&text[start..end]` is the URL.
pub fn extract_url_spans(text: &str) -> (r: Vec<(usize, usize)>)
    ensures
        r@ == url_spans(text@).map_values(|sp: (int, int)| byte_span(text@, sp)),
{
    let t = chars_of(text);
    let total = byte_len(text);
    let offs = prefix_offsets(&t, total);
    let spans = url_char_spans(&t);
    let ghost sp = url_spans(t@);
    proof {
        law_url_spans_well_formed(t@);
    }
    let mut results: Vec<(usize, usize)> = Vec::new();
    let mut j: usize = 0;
    while j < spans.len()
        invariant
            t@ == text@,
            offs.len() == t.len() + 1,
            forall|i: int| 0 <= i <= t.len() ==> #[trigger] offs@[i] == utf8_len(t@.take(i)),
            spans@.map_values(|p: (usize, usize)| (p.0 as int, p.1 as int)) == sp,
            sp == url_spans(t@),
            forall|k: int| 0 <= k < sp.len() ==> 0 <= (#[trigger] sp[k]).0 < sp[k].1 <= t.len(),
            j <= spans.len(),
            results@ == sp.take(j as int).map_values(|p: (int, int)| byte_span(text@, p)),
        decreases spans.len() - j,
    {
        let (s, e) = spans[j];
        assert(sp[j as int] == (s as int, e as int));
        results.push((offs[s], offs[e]));
        assert(sp.take(j + 1) =~= sp.take(j as int).push(sp[j as int]));
        assert(results@ =~= sp.take(j + 1).map_values(|p: (int, int)| byte_span(text@, p)));
        j += 1;
    }
    assert(sp.take(spans.len() as int) =~= sp);
    results
}

/// The URL hit regions of a single-line title drawn at row `item_row`, with its text
/// starting at column `text_x`: one region per URL, whose columns count characters.
pub fn list_item_url_regions(title: &str, item_row: u16, text_x: u16) -> (r: Vec<UrlHitRegion>)
    requires
        forall|j: int|
            0 <= j < url_spans(title@).len() ==> text_x + ((#[trigger] url_spans(title@)[j]).0 as u16)
                <= u16::MAX && text_x + (url_spans(title@)[j].1 as u16) <= u16::MAX,
    ensures
        r.len() == url_spans(title@).len(),
        forall|j: int|
            0 <= j < r.len() ==> {
                let sp = url_spans(title@)[j];
                &&& (#[trigger] r@[j]).row == item_row
                &&& r@[j].col_start == text_x + (sp.0 as u16)
                &&& r@[j].col_end == text_x + (sp.1 as u16)
                &&& r@[j].url@ == title@.subrange(sp.0, sp.1)
            },
{
    let t = chars_of(title);
    let spans = url_char_spans(&t);
    let ghost sp = url_spans(t@);
    proof {
        law_url_spans_well_formed(t@);
    }
    let mut results: Vec<UrlHitRegion> = Vec::new();
    let mut j: usize = 0;
    while j < spans.len()
        invariant
            t@ == title@,
            spans@.map_values(|p: (usize, usize)| (p.0 as int, p.1 as int)) == sp,
            sp == url_spans(t@),
            forall|k: int| 0 <= k < sp.len() ==> 0 <= (#[trigger] sp[k]).0 < sp[k].1 <= t.len(),
            forall|k: int|
                0 <= k < sp.len() ==> text_x + ((#[trigger] sp[k]).0 as u16) <= u16::MAX && text_x
                    + (sp[k].1 as u16) <= u16::MAX,
            j <= spans.len(),
            results.len() == j,
            forall|k: int|
                0 <= k < j ==> {
                    &&& (#[trigger] results@[k]).row == item_row
                    &&& results@[k].col_start == text_x + (sp[k].0 as u16)
                    &&& results@[k].col_end == text_x + (sp[k].1 as u16)
                    &&& results@[k].url@ == title@.subrange(sp[k].0, sp[k].1)
                },
        decreases spans.len() - j,
    {
        let (s, e) = spans[j];
        assert(sp[j as int] == (s as int, e as int));
        let region = UrlHitRegion {
            row: item_row,
            col_start: text_x + s as u16,
            col_end: text_x + e as u16,
            url: string_from_chars(&t, s, e),
        };
        results.push(region);
        j += 1;
    }
    results
}

/// The first index at or after `p` that does not hold a space.
pub open spec fn skip_spaces(t: Seq<char>, p: int) -> int
    decreases t.len() - p,
{
    if p < 0 || p >= t.len() || t[p] != ' ' {
        p
    } else {
        skip_spaces(t, p + 1)
    }
}

/// The first index at or after `p` that holds a space, or the end of `t`.
pub open spec fn skip_word(t: Seq<char>, p: int) -> int
    decreases t.len() - p,
{
    if p < 0 || p >= t.len() || t[p] == ' ' {
        p
    } else {
        skip_word(t, p + 1)
    }
}

pub proof fn lemma_skip_spaces(t: Seq<char>, p: int)
    requires
        0 <= p <= t.len(),
    ensures
        p <= skip_spaces(t, p) <= t.len(),
        skip_spaces(t, p) < t.len() ==> t[skip_spaces(t, p)] != ' ',
        forall|i: int| p <= i < skip_spaces(t, p) ==> t[i] == ' ',
    decreases t.len() - p,
{
    if p < t.len() && t[p] == ' ' {
        lemma_skip_spaces(t, p + 1);
    }
}

pub proof fn lemma_skip_word(t: Seq<char>, p: int)
    requires
        0 <= p <= t.len(),
    ensures
        p <= skip_word(t, p) <= t.len(),
        skip_word(t, p) < t.len() ==> t[skip_word(t, p)] == ' ',
        forall|i: int| p <= i < skip_word(t, p) ==> t[i] != ' ',
    decreases t.len() - p,
{
    if p < t.len() && t[p] != ' ' {
        lemma_skip_word(t, p + 1);
    }
}

/// The layout units of `t` from index `p` on: each is a run of spaces followed by a word,
/// written `(spaces_start, spaces_len, word_start, word_len)`; a final run of spaces has an
/// empty word.
pub open spec fn wrap_entries_from(t: Seq<char>, p: int) -> Seq<(int, int, int, int)>
    decreases t.len() - p,
{
    if p < 0 || p >= t.len() {
        seq![]
    } else {
        proof {
            lemma_skip_spaces(t, p);
        }
        let q = skip_spaces(t, p);
        if q >= t.len() {
            seq![(p, q - p, q, 0)]
        } else {
            proof {
                lemma_skip_word(t, q);
            }
            let e = skip_word(t, q);
            seq![(p, q - p, q, e - q)] + wrap_entries_from(t, e)
        }
    }
}

/// Places one layout unit: if the line already holds something and the unit does not fit,
/// its word starts the next line and its spaces are dropped; otherwise spaces and word follow
/// on the current line. Placed characters are `(char_index, column, row)`.
pub open spec fn place_entry(
    st: (Seq<(int, int, int)>, int, int),
    en: (int, int, int, int),
    width: int,
) -> (Seq<(int, int, int)>, int, int) {
    let out = st.0;
    let col = st.1;
    let row = st.2;
    if col > 0 && col + en.1 + en.3 > width {
        (out + Seq::new(en.3 as nat, |k: int| (en.2 + k, k, row + 1)), en.3, row + 1)
    } else {
        (
            out + Seq::new(en.1 as nat, |k: int| (en.0 + k, col + k, row)) + Seq::new(
                en.3 as nat,
                |k: int| (en.2 + k, col + en.1 + k, row),
            ),
            col + en.1 + en.3,
            row,
        )
    }
}

/// The layout state after placing `es` in order, starting at column 0 of row 0.
pub open spec fn place_entries(es: Seq<(int, int, int, int)>, width: int) -> (
    Seq<(int, int, int)>,
    int,
    int,
)
    decreases es.len(),
{
    if es.len() == 0 {
        (seq![], 0, 0)
    } else {
        place_entry(place_entries(es.drop_last(), width), es.last(), width)
    }
}

/// Word-wrapped placement of the characters of `t` at `width` columns:
/// `(char_index, column, row)` for every placed character, in order.
pub open spec fn wrap_layout(t: Seq<char>, width: int) -> Seq<(int, int, int)> {
    place_entries(wrap_entries_from(t, 0), width).0
}

/// A placed character as `simulate_wrap` reports it: byte offset, column, row.
pub open spec fn placed_bytes(t: Seq<char>, e: (int, int, int)) -> (usize, u16, u16) {
    (utf8_len(t.take(e.0)) as usize, e.1 as u16, e.2 as u16)
}

/// Simulates word-wrapping `text` at `width` columns. Returns `(byte_offset, column, row)`
/// for each character position that the wrapped layout shows; spaces at a wrap are dropped.
pub fn simulate_wrap(text: &str, width: u16) -> (r: Vec<(usize, u16, u16)>)
    ensures
        r@ == wrap_layout(text@, width as int).map_values(
            |e: (int, int, int)| placed_bytes(text@, e),
        ),
{
    let width = width as usize;
    let t = chars_of(text);
    let total = byte_len(text);
    let offs = prefix_offsets(&t, total);
    let n = t.len();
    let mut result: Vec<(usize, u16, u16)> = Vec::new();
    let ghost all = wrap_entries_from(t@, 0);
    let ghost mut done: Seq<(int, int, int, int)> = seq![];
    let mut cur_col: usize = 0;
    let mut cur_row: usize = 0;
    let mut pos: usize = 0;
    while pos < n
        invariant
            n == t.len(),
            t@ == text@,
            offs.len() == t.len() + 1,
            forall|i: int| 0 <= i <= t.len() ==> #[trigger] offs@[i] == utf8_len(t@.take(i)),
            pos <= n,
            cur_col <= pos,
            cur_row <= pos,
            done + wrap_entries_from(t@, pos as int) == all,
            place_entries(done, width as int).1 == cur_col,
            place_entries(done, width as int).2 == cur_row,
            result@ == place_entries(done, width as int).0.map_values(
                |e: (int, int, int)| placed_bytes(text@, e),
            ),
        decreases n - pos,
    {
        proof {
            lemma_skip_spaces(t@, pos as int);
        }
        let space_start = pos;
        let mut spaces: usize = 0;
        while pos < n && t[pos] == ' '
            invariant
                n == t.len(),
                space_start <= pos <= n,
                spaces == pos - space_start,
                skip_spaces(t@, pos as int) == skip_spaces(t@, space_start as int),
            decreases n - pos,
        {
            pos += 1;
            spaces += 1;
        }
        let ghost en: (int, int, int, int);
        let word_start = pos;
        if pos >= n {
            proof {
                en = (space_start as int, spaces as int, pos as int, 0);
            }
        } else {
            proof {
                lemma_skip_word(t@, pos as int);
            }
            while pos < n && t[pos] != ' '
                invariant
                    n == t.len(),
                    word_start <= pos <= n,
                    skip_word(t@, pos as int) == skip_word(t@, word_start as int),
                decreases n - pos,
            {
                pos += 1;
            }
            proof {
                en = (space_start as int, spaces as int, word_start as int, (pos - word_start) as int);
            }
        }
        let word_len = pos - word_start;
        let ghost st = place_entries(done, width as int);
        proof {
            assert(wrap_entries_from(t@, space_start as int) == seq![en] + wrap_entries_from(t@, pos as int));
            assert(done.push(en) + wrap_entries_from(t@, pos as int) =~= done + wrap_entries_from(t@, space_start as int));
            assert(done.push(en).drop_last() =~= done);
        }
        if cur_col > 0 && cur_col + spaces + word_len > width {
            cur_col = 0;
            cur_row += 1;
            let mut k: usize = 0;
            while k < word_len
                invariant
                    word_start + word_len <= n,
                    n == t.len(),
                    t@ == text@,
                    offs.len() == t.len() + 1,
                    forall|i: int| 0 <= i <= t.len() ==> #[trigger] offs@[i] == utf8_len(t@.take(i)),
                    k <= word_len,
                    cur_col == k,
                    cur_row == st.2 + 1,
                    result@ == (st.0 + Seq::new(k as nat, |j: int| (word_start + j, j, cur_row as int))).map_values(
                        |e: (int, int, int)| placed_bytes(text@, e),
                    ),
                decreases word_len - k,
            {
                result.push((offs[word_start + k], cur_col as u16, cur_row as u16));
                proof {
                    assert(Seq::new((k + 1) as nat, |j: int| (word_start + j, j, cur_row as int)) =~= Seq::new(k as nat, |j: int| (word_start + j, j, cur_row as int)).push((word_start + k, k as int, cur_row as int)));
                    assert(result@ =~= (st.0 + Seq::new((k + 1) as nat, |j: int| (word_start + j, j, cur_row as int))).map_values(
                        |e: (int, int, int)| placed_bytes(text@, e)));
                }
                cur_col += 1;
                k += 1;
            }
        } else {
            let mut k: usize = 0;
            let col0 = cur_col;
            while k < spaces
                invariant
                    space_start + spaces <= n,
                    n == t.len(),
                    t@ == text@,
                    offs.len() == t.len() + 1,
                    forall|i: int| 0 <= i <= t.len() ==> #[trigger] offs@[i] == utf8_len(t@.take(i)),
                    k <= spaces,
                    cur_col == col0 + k,
                    col0 <= space_start,
                    result@ == (st.0 + Seq::new(k as nat, |j: int| (space_start + j, col0 + j, cur_row as int))).map_values(
                        |e: (int, int, int)| placed_bytes(text@, e),
                    ),
                decreases spaces - k,
            {
                result.push((offs[space_start + k], cur_col as u16, cur_row as u16));
                proof {
                    assert(Seq::new((k + 1) as nat, |j: int| (space_start + j, col0 + j, cur_row as int)) =~= Seq::new(k as nat, |j: int| (space_start + j, col0 + j, cur_row as int)).push((space_start + k, col0 + k, cur_row as int)));
                    assert(result@ =~= (st.0 + Seq::new((k + 1) as nat, |j: int| (space_start + j, col0 + j, cur_row as int))).map_values(
                        |e: (int, int, int)| placed_bytes(text@, e)));
                }
                cur_col += 1;
                k += 1;
            }
            let ghost mid = st.0 + Seq::new(spaces as nat, |j: int| (space_start + j, col0 + j, cur_row as int));
            let mut k: usize = 0;
            while k < word_len
                invariant
                    word_start + word_len <= n,
                    n == t.len(),
                    t@ == text@,
                    offs.len() == t.len() + 1,
                    forall|i: int| 0 <= i <= t.len() ==> #[trigger] offs@[i] == utf8_len(t@.take(i)),
                    k <= word_len,
                    cur_col == col0 + spaces + k,
                    col0 <= space_start,
                    space_start + spaces == word_start,
                    result@ == (mid + Seq::new(k as nat, |j: int| (word_start + j, col0 + spaces + j, cur_row as int))).map_values(
                        |e: (int, int, int)| placed_bytes(text@, e),
                    ),
                decreases word_len - k,
            {
                result.push((offs[word_start + k], cur_col as u16, cur_row as u16));
                proof {
                    assert(Seq::new((k + 1) as nat, |j: int| (word_start + j, col0 + spaces + j, cur_row as int)) =~= Seq::new(k as nat, |j: int| (word_start + j, col0 + spaces + j, cur_row as int)).push((word_start + k, col0 + spaces + k, cur_row as int)));
                    assert(result@ =~= (mid + Seq::new((k + 1) as nat, |j: int| (word_start + j, col0 + spaces + j, cur_row as int))).map_values(
                        |e: (int, int, int)| placed_bytes(text@, e)));
                }
                cur_col += 1;
                k += 1;
            }
        }
        proof {
            done = done.push(en);
        }
    }
    proof {
        assert(done =~= all);
    }
    result
}


/// Records the cell at `(row, col)` in a grouping of cells by row, where each row maps to
/// its first column and the column just past its last cell.
pub open spec fn group_cell(m: Map<u16, (u16, u16)>, row: u16, col: u16) -> Map<u16, (u16, u16)> {
    if m.contains_key(row) {
        let cur = m[row];
        m.insert(
            row,
            (
                if col < cur.0 {
                    col
                } else {
                    cur.0
                },
                if col + 1 > cur.1 {
                    (col + 1) as u16
                } else {
                    cur.1
                },
            ),
        )
    } else {
        m.insert(row, (col, (col + 1) as u16))
    }
}

/// The cells of the wrapped characters whose byte offset lies in `[us, ue)`, grouped by
/// absolute row (`base_row` and `base_col` shift the wrapped layout on screen).
pub open spec fn span_row_groups(
    cm: Seq<(usize, u16, u16)>,
    us: usize,
    ue: usize,
    base_row: u16,
    base_col: u16,
) -> Map<u16, (u16, u16)>
    decreases cm.len(),
{
    if cm.len() == 0 {
        Map::empty()
    } else {
        let m = span_row_groups(cm.drop_last(), us, ue, base_row, base_col);
        let e = cm.last();
        if us <= e.0 < ue {
            group_cell(m, (base_row + e.2) as u16, (base_col + e.1) as u16)
        } else {
            m
        }
    }
}

/// `v` lists the entries of `m` as `(row, first column, end column)` in increasing row order.
pub open spec fn lists_groups(v: Seq<(u16, u16, u16)>, m: Map<u16, (u16, u16)>) -> bool {
    &&& forall|i: int, j: int| 0 <= i < j < v.len() ==> (#[trigger] v[i]).0 < (#[trigger] v[j]).0
    &&& forall|i: int|
        0 <= i < v.len() ==> m.contains_key((#[trigger] v[i]).0) && m[v[i].0] == (v[i].1, v[i].2)
    &&& forall|r: u16| #[trigger] m.contains_key(r) ==> exists|i: int| 0 <= i < v.len() && (#[trigger] v[i]).0 == r
}

/// The entries of `m` in increasing row order.
pub open spec fn row_listing(m: Map<u16, (u16, u16)>) -> Seq<(u16, u16, u16)> {
    choose|v: Seq<(u16, u16, u16)>| lists_groups(v, m)
}

/// Two listings of the same grouping in increasing row order are equal.
pub proof fn lemma_listing_unique(v: Seq<(u16, u16, u16)>, w: Seq<(u16, u16, u16)>, m: Map<u16, (u16, u16)>)
    requires
        lists_groups(v, m),
        lists_groups(w, m),
    ensures
        v == w,
    decreases v.len(),
{
    if v.len() == 0 {
        if w.len() > 0 {
            assert(m.contains_key(w[0].0));
        }
        assert(v =~= w);
    } else {
        let k = v[0].0;
        assert(m.contains_key(k));
        let iw = choose|i: int| 0 <= i < w.len() && (#[trigger] w[i]).0 == k;
        assert(w.len() > 0);
        assert(m.contains_key(w[0].0));
        let iv = choose|i: int| 0 <= i < v.len() && (#[trigger] v[i]).0 == w[0].0;
        if iw > 0 {
            assert(w[0].0 < w[iw].0);
        }
        if iv > 0 {
            assert(v[0].0 < v[iv].0);
        }
        assert(w[0].0 == k);
        let m2 = m.remove(k);
        let v2 = v.drop_first();
        let w2 = w.drop_first();
        assert forall|r: u16| #[trigger] m2.contains_key(r) implies exists|i: int|
            0 <= i < v2.len() && (#[trigger] v2[i]).0 == r by {
            let i = choose|i: int| 0 <= i < v.len() && (#[trigger] v[i]).0 == r;
            assert(v2[i - 1].0 == r);
        }
        assert forall|r: u16| #[trigger] m2.contains_key(r) implies exists|i: int|
            0 <= i < w2.len() && (#[trigger] w2[i]).0 == r by {
            let i = choose|i: int| 0 <= i < w.len() && (#[trigger] w[i]).0 == r;
            assert(w2[i - 1].0 == r);
        }
        assert forall|i: int| 0 <= i < v2.len() implies m2.contains_key((#[trigger] v2[i]).0) && m2[v2[i].0]
            == (v2[i].1, v2[i].2) by {
            assert(v2[i] == v[i + 1]);
            assert(v[0].0 < v[i + 1].0);
        }
        assert forall|i: int| 0 <= i < w2.len() implies m2.contains_key((#[trigger] w2[i]).0) && m2[w2[i].0]
            == (w2[i].1, w2[i].2) by {
            assert(w2[i] == w[i + 1]);
            assert(w[0].0 < w[i + 1].0);
        }
        assert forall|i: int, j: int| 0 <= i < j < v2.len() implies (#[trigger] v2[i]).0 < (#[trigger] v2[j]).0 by {
            assert(v2[i] == v[i + 1] && v2[j] == v[j + 1]);
        }
        assert forall|i: int, j: int| 0 <= i < j < w2.len() implies (#[trigger] w2[i]).0 < (#[trigger] w2[j]).0 by {
            assert(w2[i] == w[i + 1] && w2[j] == w[j + 1]);
        }
        lemma_listing_unique(v2, w2, m2);
        assert(v =~= w) by {
            assert(v == seq![v[0]] + v2);
            assert(w == seq![w[0]] + w2);
        }
    }
}

/// Records `(row, col)` in the listing `v`, keeping it in increasing row order.
fn record_cell(v: &mut Vec<(u16, u16, u16)>, row: u16, col: u16, Ghost(m): Ghost<Map<u16, (u16, u16)>>)
    requires
        lists_groups(old(v)@, m),
        col < u16::MAX,
    ensures
        lists_groups(final(v)@, group_cell(m, row, col)),
{
    let ghost m2 = group_cell(m, row, col);
    let mut i: usize = 0;
    while i < v.len() && v[i].0 < row
        invariant
            i <= v.len(),
            forall|j: int| 0 <= j < i ==> (#[trigger] v@[j]).0 < row,
        decreases v.len() - i,
    {
        i += 1;
    }
    if i < v.len() && v[i].0 == row {
        let cur = v[i];
        let lo = if col < cur.1 { col } else { cur.1 };
        let hi = if col + 1 > cur.2 { col + 1 } else { cur.2 };
        let ghost old_v = v@;
        v.set(i, (row, lo, hi));
        assert(m.contains_key(row) && m[row] == (cur.1, cur.2));
        assert forall|r: u16| #[trigger] m2.contains_key(r) implies exists|j: int|
            0 <= j < v@.len() && (#[trigger] v@[j]).0 == r by {
            if r != row {
                let j = choose|j: int| 0 <= j < old_v.len() && (#[trigger] old_v[j]).0 == r;
                assert(v@[j].0 == r);
            } else {
                assert(v@[i as int].0 == r);
            }
        }
        assert forall|a: int, b: int| 0 <= a < b < v@.len() implies (#[trigger] v@[a]).0 < (#[trigger] v@[b]).0 by {
            assert(old_v[a].0 < old_v[b].0);
        }
        assert forall|j: int| 0 <= j < v@.len() implies m2.contains_key((#[trigger] v@[j]).0) && m2[v@[j].0]
            == (v@[j].1, v@[j].2) by {
            if j != i {
                assert(old_v[j].0 != row) by {
                    if j < i {
                        assert(old_v[j].0 < old_v[i as int].0);
                    } else {
                        assert(old_v[i as int].0 < old_v[j].0);
                    }
                }
            }
        }
    } else {
        let ghost old_v = v@;
        proof {
            assert(!m.contains_key(row)) by {
                if m.contains_key(row) {
                    let j = choose|j: int| 0 <= j < old_v.len() && (#[trigger] old_v[j]).0 == row;
                    if j < i {
                    } else {
                        assert(old_v[i as int].0 <= old_v[j].0) by {
                            if j > i {
                                assert(old_v[i as int].0 < old_v[j].0);
                            }
                        }
                    }
                }
            }
        }
        v.insert(i, (row, col, col + 1));
        assert forall|r: u16| #[trigger] m2.contains_key(r) implies exists|j: int|
            0 <= j < v@.len() && (#[trigger] v@[j]).0 == r by {
            if r != row {
                let j = choose|j: int| 0 <= j < old_v.len() && (#[trigger] old_v[j]).0 == r;
                if j < i {
                    assert(v@[j].0 == r);
                } else {
                    assert(v@[j + 1].0 == r);
                }
            } else {
                assert(v@[i as int].0 == r);
            }
        }
        assert forall|a: int, b: int| 0 <= a < b < v@.len() implies (#[trigger] v@[a]).0 < (#[trigger] v@[b]).0 by {
            if b < i {
                assert(old_v[a].0 < old_v[b].0);
            } else if b == i {
                assert(old_v[a].0 < row);
            } else if a < i {
                assert(old_v[a].0 < row);
                assert(row < old_v[b - 1].0) by {
                    assert(old_v[i as int].0 <= old_v[b - 1].0) by {
                        if b - 1 > i {
                            assert(old_v[i as int].0 < old_v[b - 1].0);
                        }
                    }
                }
            } else if a == i {
                assert(old_v[i as int].0 <= old_v[b - 1].0) by {
                    if b - 1 > i {
                        assert(old_v[i as int].0 < old_v[b - 1].0);
                    }
                }
            } else {
                assert(old_v[a - 1].0 < old_v[b - 1].0);
            }
        }
        assert forall|j: int| 0 <= j < v@.len() implies m2.contains_key((#[trigger] v@[j]).0) && m2[v@[j].0]
            == (v@[j].1, v@[j].2) by {
            if j < i {
                assert(v@[j] == old_v[j]);
            } else if j > i {
                assert(v@[j] == old_v[j - 1]);
            }
        }
    }
}


/// The cells of `t` wrapped at `width` columns, as `simulate_wrap` reports them.
pub open spec fn wrapped_cells(t: Seq<char>, width: u16) -> Seq<(usize, u16, u16)> {
    wrap_layout(t, width as int).map_values(|e: (int, int, int)| placed_bytes(t, e))
}

/// The URL spans of `t` as byte offsets, as `extract_url_spans` reports them.
pub open spec fn url_byte_spans(t: Seq<char>) -> Seq<(usize, usize)> {
    url_spans(t).map_values(|sp: (int, int)| byte_span(t, sp))
}

/// Every URL cell of the wrapped text lands on screen within `u16` coordinates, the column
/// just past it included.
pub open spec fn detail_fits(t: Seq<char>, width: u16, base_row: u16, base_col: u16) -> bool {
    forall|j: int, i: int|
        0 <= j < url_byte_spans(t).len() && 0 <= i < wrapped_cells(t, width).len() && (#[trigger] url_byte_spans(t)[j]).0
            <= (#[trigger] wrapped_cells(t, width)[i]).0 < url_byte_spans(t)[j].1 ==> base_row
            + wrapped_cells(t, width)[i].2 <= u16::MAX && base_col + wrapped_cells(t, width)[i].1 + 1
            <= u16::MAX
}

/// Whether every URL cell of `text`, word-wrapped at `width` columns and drawn from
/// `(base_row, base_col)`, lands within `u16` coordinates (see `detail_fits`).
pub fn detail_fits_check(text: &str, width: u16, base_row: u16, base_col: u16) -> (r: bool)
    ensures
        r == detail_fits(text@, width, base_row, base_col),
{
    let cells = simulate_wrap(text, width);
    let spans = extract_url_spans(text);
    let ghost t = text@;
    let mut j: usize = 0;
    while j < spans.len()
        invariant
            t == text@,
            cells@ == wrapped_cells(t, width),
            spans@ == url_byte_spans(t),
            j <= spans@.len(),
            forall|jj: int, i: int|
                0 <= jj < j && 0 <= i < cells@.len() && (#[trigger] spans@[jj]).0 <= (#[trigger] cells@[i]).0
                    < spans@[jj].1 ==> base_row + cells@[i].2 <= u16::MAX && base_col + cells@[i].1
                    + 1 <= u16::MAX,
        decreases spans@.len() - j,
    {
        let mut i: usize = 0;
        while i < cells.len()
            invariant
                t == text@,
                cells@ == wrapped_cells(t, width),
                spans@ == url_byte_spans(t),
                j < spans@.len(),
                i <= cells@.len(),
                forall|jj: int, ii: int|
                    0 <= jj < j && 0 <= ii < cells@.len() && (#[trigger] spans@[jj]).0 <= (
                    #[trigger] cells@[ii]).0 < spans@[jj].1 ==> base_row + cells@[ii].2 <= u16::MAX
                        && base_col + cells@[ii].1 + 1 <= u16::MAX,
                forall|ii: int|
                    0 <= ii < i && spans@[j as int].0 <= (#[trigger] cells@[ii]).0 < spans@[j as int].1
                        ==> base_row + cells@[ii].2 <= u16::MAX && base_col + cells@[ii].1 + 1
                        <= u16::MAX,
            decreases cells@.len() - i,
        {
            let (b, col, row) = cells[i];
            if spans[j].0 <= b && b < spans[j].1 {
                if row > u16::MAX - base_row || col >= u16::MAX - base_col {
                    assert(url_byte_spans(t)[j as int].0 <= wrapped_cells(t, width)[i as int].0
                        < url_byte_spans(t)[j as int].1);
                    return false;
                }
            }
            i = i + 1;
        }
        j = j + 1;
    }
    true
}

/// The URL regions of the detail panel, as `detail_url_regions` gives them, where every
/// URL cell lands within `u16` coordinates; `None` where one does not.
pub fn detail_url_regions_checked(text: &str, available_width: u16, base_row: u16, base_col: u16) -> (r:
    Option<Vec<UrlHitRegion>>)
    ensures
        r is Some <==> detail_fits(text@, available_width, base_row, base_col),
        match r {
            Some(v) => v@.map_values(|h: UrlHitRegion| (h.row, h.col_start, h.col_end, h.url@))
                == detail_regions(text@, available_width, base_row, base_col),
            None => true,
        },
{
    if detail_fits_check(text, available_width, base_row, base_col) {
        Some(detail_url_regions(text, available_width, base_row, base_col))
    } else {
        None
    }
}

/// The regions of the URL spans `spans` (character indices), in span order and, within a
/// span, in row order: `(row, col_start, col_end, url)`.
pub open spec fn regions_for_spans(
    t: Seq<char>,
    cells: Seq<(usize, u16, u16)>,
    spans: Seq<(int, int)>,
    base_row: u16,
    base_col: u16,
) -> Seq<(u16, u16, u16, Seq<char>)>
    decreases spans.len(),
{
    if spans.len() == 0 {
        seq![]
    } else {
        let sp = spans.last();
        let bs = byte_span(t, sp);
        regions_for_spans(t, cells, spans.drop_last(), base_row, base_col) + row_listing(
            span_row_groups(cells, bs.0, bs.1, base_row, base_col),
        ).map_values(|x: (u16, u16, u16)| (x.0, x.1, x.2, t.subrange(sp.0, sp.1)))
    }
}

/// The URL hit regions of `t` shown word-wrapped at `width` columns from `(base_row, base_col)`.
pub open spec fn detail_regions(t: Seq<char>, width: u16, base_row: u16, base_col: u16) -> Seq<
    (u16, u16, u16, Seq<char>),
> {
    regions_for_spans(t, wrapped_cells(t, width), url_spans(t), base_row, base_col)
}

/// Hit regions of the URLs in `text` shown word-wrapped at `available_width` columns with the
/// text's top-left cell at `(base_row, base_col)`: for each URL, one region per screen row that
/// it touches, from its first to just past its last cell on that row, rows in increasing order.
pub fn detail_url_regions(text: &str, available_width: u16, base_row: u16, base_col: u16) -> (r:
    Vec<UrlHitRegion>)
    requires
        detail_fits(text@, available_width, base_row, base_col),
    ensures
        r@.map_values(|h: UrlHitRegion| (h.row, h.col_start, h.col_end, h.url@)) == detail_regions(
            text@,
            available_width,
            base_row,
            base_col,
        ),
{
    let char_map = simulate_wrap(text, available_width);
    let url_spans_bytes = extract_url_spans(text);
    let t = chars_of(text);
    let spans = url_char_spans(&t);
    let ghost sp = url_spans(t@);
    let ghost cells = wrapped_cells(text@, available_width);
    proof {
        law_url_spans_well_formed(t@);
    }
    let mut regions: Vec<UrlHitRegion> = Vec::new();
    let mut j: usize = 0;
    while j < spans.len()
        invariant
            t@ == text@,
            char_map@ == cells,
            cells == wrapped_cells(text@, available_width),
            url_spans_bytes@ == url_byte_spans(text@),
            spans@.map_values(|p: (usize, usize)| (p.0 as int, p.1 as int)) == sp,
            sp == url_spans(t@),
            forall|k: int| 0 <= k < sp.len() ==> 0 <= (#[trigger] sp[k]).0 < sp[k].1 <= t.len(),
            detail_fits(text@, available_width, base_row, base_col),
            j <= spans.len(),
            regions@.map_values(|h: UrlHitRegion| (h.row, h.col_start, h.col_end, h.url@))
                == regions_for_spans(text@, cells, sp.take(j as int), base_row, base_col),
        decreases spans.len() - j,
    {
        let (cs, ce) = spans[j];
        assert(sp[j as int] == (cs as int, ce as int));
        assert(url_spans_bytes@.len() == sp.len());
        let (us, ue) = url_spans_bytes[j];
        assert((us, ue) == byte_span(text@, sp[j as int]));
        let url_str = string_from_chars(&t, cs, ce);
        let mut groups: Vec<(u16, u16, u16)> = Vec::new();
        let ghost mut m: Map<u16, (u16, u16)> = Map::empty();
        assert(lists_groups(groups@, m));
        let mut i: usize = 0;
        while i < char_map.len()
            invariant
                char_map@ == cells,
                cells == wrapped_cells(text@, available_width),
                url_spans_bytes@ == url_byte_spans(text@),
                j < url_spans_bytes@.len(),
                (us, ue) == url_spans_bytes@[j as int],
                detail_fits(text@, available_width, base_row, base_col),
                i <= char_map.len(),
                m == span_row_groups(cells.take(i as int), us, ue, base_row, base_col),
                lists_groups(groups@, m),
            decreases char_map.len() - i,
        {
            let (byte_off, dcol, drow) = char_map[i];
            assert(cells.take(i + 1).drop_last() =~= cells.take(i as int));
            if byte_off >= us && byte_off < ue {
                assert(base_row + cells[i as int].2 <= u16::MAX && base_col + cells[i as int].1 + 1
                    <= u16::MAX);
                let abs_row = base_row + drow;
                let abs_col = base_col + dcol;
                record_cell(&mut groups, abs_row, abs_col, Ghost(m));
                proof {
                    m = group_cell(m, abs_row, abs_col);
                }
            }
            i += 1;
        }
        assert(cells.take(char_map.len() as int) =~= cells);
        proof {
            assert(lists_groups(row_listing(m), m));
            lemma_listing_unique(groups@, row_listing(m), m);
        }
        let ghost prev = regions@.map_values(|h: UrlHitRegion| (h.row, h.col_start, h.col_end, h.url@));
        let ghost url_chars = t@.subrange(cs as int, ce as int);
        let mut g: usize = 0;
        while g < groups.len()
            invariant
                g <= groups.len(),
                url_str@ == url_chars,
                regions@.map_values(|h: UrlHitRegion| (h.row, h.col_start, h.col_end, h.url@))
                    == prev + groups@.take(g as int).map_values(
                    |x: (u16, u16, u16)| (x.0, x.1, x.2, url_chars),
                ),
            decreases groups.len() - g,
        {
            let (row, col_start, col_end) = groups[g];
            assert((row, col_start, col_end) == groups@[g as int]);
            let url = url_str.clone();
            assert(url@ == url_chars);
            let h = UrlHitRegion { row, col_start, col_end, url };
            let ghost before = regions@;
            regions.push(h);
            assert(regions@ == before.push(h));
            assert(regions@.map_values(|h: UrlHitRegion| (h.row, h.col_start, h.col_end, h.url@))
                =~= before.map_values(|h: UrlHitRegion| (h.row, h.col_start, h.col_end, h.url@)).push(
                (row, col_start, col_end, url_chars),
            ));
            assert(groups@.take(g + 1).map_values(|x: (u16, u16, u16)| (x.0, x.1, x.2, url_chars))
                =~= groups@.take(g as int).map_values(
                |x: (u16, u16, u16)| (x.0, x.1, x.2, url_chars),
            ).push((row, col_start, col_end, url_chars)));
            assert(groups@.take(g + 1) =~= groups@.take(g as int).push(groups@[g as int]));
            assert(regions@.map_values(|h: UrlHitRegion| (h.row, h.col_start, h.col_end, h.url@))
                =~= prev + groups@.take(g + 1).map_values(
                |x: (u16, u16, u16)| (x.0, x.1, x.2, url_chars),
            ));
            g += 1;
        }
        assert(groups@.take(groups.len() as int) =~= groups@);
        assert(sp.take(j + 1).drop_last() =~= sp.take(j as int));
        assert(sp.take(j + 1).last() == sp[j as int]);
        j += 1;
    }
    assert(sp.take(spans.len() as int) =~= sp);
    regions
}


// ── Text that needs no wrapping ──────────────────────────────────────────────

/// The index just past the word of a layout unit.
pub open spec fn entry_end(en: (int, int, int, int)) -> int {
    en.2 + en.3
}

proof fn lemma_entries(t: Seq<char>, p: int)
    requires
        0 <= p <= t.len(),
    ensures
        ({
            let es = wrap_entries_from(t, p);
            &&& es.len() == 0 <==> p == t.len()
            &&& forall|i: int|
                0 <= i < es.len() ==> (#[trigger] es[i]).1 >= 0 && es[i].3 >= 0 && es[i].2 == es[i].0
                    + es[i].1 && entry_end(es[i]) <= t.len()
            &&& es.len() > 0 ==> es[0].0 == p && entry_end(es.last()) == t.len()
            &&& forall|i: int| 0 < i < es.len() ==> (#[trigger] es[i]).0 == entry_end(es[i - 1])
        }),
    decreases t.len() - p,
{
    if p < t.len() {
        lemma_skip_spaces(t, p);
        let q = skip_spaces(t, p);
        if q < t.len() {
            lemma_skip_word(t, q);
            let e = skip_word(t, q);
            assert(t[q] != ' ');
            assert(e > q);
            lemma_entries(t, e);
            let h = (p, q - p, q, e - q);
            let rest = wrap_entries_from(t, e);
            let es = wrap_entries_from(t, p);
            assert(es == seq![h] + rest);
            assert forall|i: int| 0 < i < es.len() implies es[i] == rest[i - 1] by {}
            if rest.len() > 0 {
                assert(es.last() == rest.last());
            }
        }
    }
}

proof fn lemma_place_unwrapped(es: Seq<(int, int, int, int)>, n: int, w: int)
    requires
        0 <= n <= es.len(),
        forall|i: int|
            0 <= i < es.len() ==> (#[trigger] es[i]).1 >= 0 && es[i].3 >= 0 && es[i].2 == es[i].0
                + es[i].1 && entry_end(es[i]) <= w,
        es.len() > 0 ==> es[0].0 == 0,
        forall|i: int| 0 < i < es.len() ==> (#[trigger] es[i]).0 == entry_end(es[i - 1]),
    ensures
        ({
            let e = if n == 0 {
                0
            } else {
                entry_end(es[n - 1])
            };
            &&& e >= 0
            &&& place_entries(es.take(n), w) == (Seq::new(e as nat, |k: int| (k, k, 0int)), e, 0int)
        }),
    decreases n,
{
    if n == 0 {
        assert(es.take(0) =~= Seq::<(int, int, int, int)>::empty());
        assert(Seq::new(0, |k: int| (k, k, 0int)) =~= Seq::<(int, int, int)>::empty());
    } else {
        lemma_place_unwrapped(es, n - 1, w);
        assert(es.take(n).drop_last() =~= es.take(n - 1));
        assert(es.take(n).last() == es[n - 1]);
        let en = es[n - 1];
        let c = if n - 1 == 0 {
            0
        } else {
            entry_end(es[n - 2])
        };
        assert(c == en.0);
        if n >= 2 {
            assert(es[n - 2].1 >= 0 && es[n - 2].3 >= 0);
        }
        lemma_place_one_unwrapped(c, en, w);
    }
}

/// Placing one unit right after `c` diagonal cells, when it fits, extends the diagonal.
proof fn lemma_place_one_unwrapped(c: int, en: (int, int, int, int), w: int)
    requires
        0 <= c,
        en.0 == c,
        en.1 >= 0,
        en.3 >= 0,
        en.2 == en.0 + en.1,
        entry_end(en) <= w,
    ensures
        place_entry((Seq::new(c as nat, |k: int| (k, k, 0int)), c, 0int), en, w) == (
            Seq::new(entry_end(en) as nat, |k: int| (k, k, 0int)),
            entry_end(en),
            0int,
        ),
{
    let prev = Seq::new(c as nat, |k: int| (k, k, 0int));
    let out = prev + Seq::new(en.1 as nat, |k: int| (en.0 + k, c + k, 0int)) + Seq::new(
        en.3 as nat,
        |k: int| (en.2 + k, c + en.1 + k, 0int),
    );
    assert(out =~= Seq::new(entry_end(en) as nat, |k: int| (k, k, 0int)));
}

/// Without wrapping, character `k` sits in column `k` of row 0.
proof fn lemma_layout_unwrapped(t: Seq<char>, w: int)
    requires
        t.len() <= w,
    ensures
        wrap_layout(t, w) == Seq::new(t.len(), |k: int| (k, k, 0int)),
{
    let es = wrap_entries_from(t, 0);
    lemma_entries(t, 0);
    lemma_place_unwrapped(es, es.len() as int, w);
    assert(es.take(es.len() as int) =~= es);
}

proof fn lemma_utf8_len_bound(cs: Seq<char>)
    ensures
        utf8_len(cs) <= 4 * cs.len(),
    decreases cs.len(),
{
    if cs.len() > 0 {
        lemma_utf8_len_bound(cs.drop_last());
    }
}

/// The cells of the characters in one span, grouped by row, without wrapping: one row.
proof fn lemma_span_groups_unwrapped(
    t: Seq<char>,
    cells: Seq<(usize, u16, u16)>,
    a: int,
    b: int,
    i: int,
    base_row: u16,
    base_col: u16,
)
    requires
        t.len() <= u16::MAX,
        base_col + t.len() <= u16::MAX,
        cells.len() == t.len(),
        forall|k: int| 0 <= k < t.len() ==> #[trigger] cells[k] == placed_bytes(t, (k, k, 0int)),
        0 <= a < b <= t.len(),
        0 <= i <= t.len(),
    ensures
        span_row_groups(cells.take(i), byte_span(t, (a, b)).0, byte_span(t, (a, b)).1, base_row, base_col)
            == if i <= a {
            Map::<u16, (u16, u16)>::empty()
        } else {
            Map::<u16, (u16, u16)>::empty().insert(
                base_row,
                ((base_col + a) as u16, (base_col + if i < b { i } else { b }) as u16),
            )
        },
    decreases i,
{
    let bs = byte_span(t, (a, b));
    if i > 0 {
        lemma_span_groups_unwrapped(t, cells, a, b, i - 1, base_row, base_col);
        assert(cells.take(i).drop_last() =~= cells.take(i - 1));
        assert(cells.take(i).last() == cells[i - 1]);
        let k = i - 1;
        crate::text::lemma_utf8_len_take_mono(t, k, t.len() as int);
        crate::text::lemma_utf8_len_take_mono(t, a, t.len() as int);
        crate::text::lemma_utf8_len_take_mono(t, b, t.len() as int);
        crate::text::lemma_take_full(t);
        lemma_utf8_len_bound(t);
        assert(cells[k].0 == utf8_len(t.take(k)));
        assert(cells[k].1 == k && cells[k].2 == 0);
        if a <= k && k < b {
            if a < k {
                crate::text::lemma_utf8_len_take_strict(t, a, k);
            }
            crate::text::lemma_utf8_len_take_strict(t, k, b);
            assert(bs.0 <= cells[k].0 < bs.1);
        } else if k < a {
            crate::text::lemma_utf8_len_take_strict(t, k, a);
        } else {
            if b < k {
                crate::text::lemma_utf8_len_take_strict(t, b, k);
            }
        }
    }
}

/// Two listings of a grouping with one row.
proof fn lemma_single_listing(r: u16, lo: u16, hi: u16)
    ensures
        row_listing(Map::<u16, (u16, u16)>::empty().insert(r, (lo, hi))) == seq![(r, lo, hi)],
{
    let m = Map::<u16, (u16, u16)>::empty().insert(r, (lo, hi));
    let v = seq![(r, lo, hi)];
    assert(forall|x: u16| #[trigger] m.contains_key(x) ==> x == r);
    assert(v[0].0 == r);
    assert(lists_groups(v, m));
    assert(lists_groups(row_listing(m), m));
    lemma_listing_unique(row_listing(m), v, m);
}

/// The single-line region of span `sp` of `t` drawn from `(base_row, base_col)`.
pub open spec fn line_region(t: Seq<char>, sp: (int, int), base_row: u16, base_col: u16) -> (u16, u16, u16, Seq<char>) {
    (base_row, (base_col + sp.0) as u16, (base_col + sp.1) as u16, t.subrange(sp.0, sp.1))
}

proof fn lemma_regions_unwrapped(t: Seq<char>, width: u16, spans: Seq<(int, int)>, base_row: u16, base_col: u16)
    requires
        t.len() <= width,
        base_col + t.len() <= u16::MAX,
        forall|j: int| 0 <= j < spans.len() ==> 0 <= (#[trigger] spans[j]).0 < spans[j].1 <= t.len(),
    ensures
        regions_for_spans(t, wrapped_cells(t, width), spans, base_row, base_col) == spans.map_values(
            |sp: (int, int)| line_region(t, sp, base_row, base_col),
        ),
    decreases spans.len(),
{
    let cells = wrapped_cells(t, width);
    lemma_layout_unwrapped(t, width as int);
    assert forall|k: int| 0 <= k < t.len() implies #[trigger] cells[k] == placed_bytes(t, (k, k, 0int)) by {}
    if spans.len() == 0 {
        assert(spans.map_values(|sp: (int, int)| line_region(t, sp, base_row, base_col)) =~= Seq::<
            (u16, u16, u16, Seq<char>),
        >::empty());
    } else {
        let d = spans.drop_last();
        assert forall|j: int| 0 <= j < d.len() implies 0 <= (#[trigger] d[j]).0 < d[j].1 <= t.len() by {
            assert(d[j] == spans[j]);
        }
        lemma_regions_unwrapped(t, width, d, base_row, base_col);
        let sp = spans.last();
        assert(sp == spans[spans.len() - 1]);
        lemma_span_groups_unwrapped(t, cells, sp.0, sp.1, t.len() as int, base_row, base_col);
        assert(cells.take(t.len() as int) =~= cells);
        lemma_single_listing(base_row, (base_col + sp.0) as u16, (base_col + sp.1) as u16);
        let bs = byte_span(t, sp);
        let one = row_listing(span_row_groups(cells, bs.0, bs.1, base_row, base_col));
        assert(one == seq![(base_row, (base_col + sp.0) as u16, (base_col + sp.1) as u16)]);
        assert(one.map_values(|x: (u16, u16, u16)| (x.0, x.1, x.2, t.subrange(sp.0, sp.1))) =~= seq![
            line_region(t, sp, base_row, base_col),
        ]);
        assert(spans.map_values(|sp: (int, int)| line_region(t, sp, base_row, base_col)) =~= d.map_values(
            |sp: (int, int)| line_region(t, sp, base_row, base_col),
        ) + seq![line_region(t, sp, base_row, base_col)]);
    }
}

/// When the text fits on one line, the detail panel's URL regions are the single-line ones:
/// one region per URL, on the base row, from `base_col` plus its first character's index to
/// `base_col` plus the index just past its last, exactly what `list_item_url_regions` gives
/// for the same text drawn at `(base_row, base_col)`. Such a text also meets the
/// requirement of `detail_url_regions`.
pub proof fn law_unwrapped_detail_regions_are_single_line(
    t: Seq<char>,
    width: u16,
    base_row: u16,
    base_col: u16,
)
    requires
        t.len() <= width,
        base_col + t.len() <= u16::MAX,
    ensures
        detail_fits(t, width, base_row, base_col),
        detail_regions(t, width, base_row, base_col) == url_spans(t).map_values(
            |sp: (int, int)| line_region(t, sp, base_row, base_col),
        ),
        forall|j: int|
            0 <= j < url_spans(t).len() ==> base_col + ((#[trigger] url_spans(t)[j]).0 as u16)
                <= u16::MAX && base_col + (url_spans(t)[j].1 as u16) <= u16::MAX && (
            line_region(t, url_spans(t)[j], base_row, base_col).1 == base_col + (url_spans(t)[j].0 as u16))
                && line_region(t, url_spans(t)[j], base_row, base_col).2 == base_col + (
            url_spans(t)[j].1 as u16),
{
    law_url_spans_well_formed(t);
    lemma_regions_unwrapped(t, width, url_spans(t), base_row, base_col);
    let cells = wrapped_cells(t, width);
    lemma_layout_unwrapped(t, width as int);
    assert forall|j: int, i: int|
        0 <= j < url_byte_spans(t).len() && 0 <= i < cells.len() && (#[trigger] url_byte_spans(t)[j]).0
            <= (#[trigger] cells[i]).0 < url_byte_spans(t)[j].1 implies base_row + cells[i].2
        <= u16::MAX && base_col + cells[i].1 + 1 <= u16::MAX by {
        assert(cells[i] == placed_bytes(t, (i, i, 0int)));
    }
}

/// Every URL of `t`, drawn from column `x`, ends within `u16` coordinates.
pub open spec fn line_urls_fit(t: Seq<char>, x: u16) -> bool {
    forall|j: int| 0 <= j < url_spans(t).len() ==> x + (#[trigger] url_spans(t)[j]).1 <= u16::MAX
}

/// The URL regions of one line drawn from `(row, x)`: `(row, col_start, col_end, url)` per
/// URL, as `list_item_url_regions` gives them.
pub open spec fn line_url_regions(t: Seq<char>, row: u16, x: u16) -> Seq<(u16, u16, u16, Seq<char>)> {
    url_spans(t).map_values(|sp: (int, int)| line_region(t, sp, row, x))
}

/// The URL regions of a card's title lines `lines`, the first drawn on row `row_start` and
/// each next one a row lower, all from column `x`, line by line.
pub open spec fn card_url_regions_spec(lines: Seq<Seq<char>>, row_start: u16, x: u16) -> Seq<
    (u16, u16, u16, Seq<char>),
>
    decreases lines.len(),
{
    if lines.len() == 0 {
        seq![]
    } else {
        card_url_regions_spec(lines.drop_last(), row_start, x) + line_url_regions(
            lines.last(),
            (row_start + lines.len() - 1) as u16,
            x,
        )
    }
}

/// The rows of the lines and the URLs on each of them all land within `u16` coordinates.
pub open spec fn card_fits(lines: Seq<Seq<char>>, row_start: u16, x: u16) -> bool {
    &&& row_start + lines.len() <= u16::MAX + 1
    &&& forall|l: int| 0 <= l < lines.len() ==> line_urls_fit(#[trigger] lines[l], x)
}

/// Whether every URL of `line`, drawn from column `x`, ends within `u16` coordinates.
fn line_urls_fit_check(line: &str, x: u16) -> (r: bool)
    ensures
        r == line_urls_fit(line@, x),
{
    let t = chars_of(line);
    let spans = url_char_spans(&t);
    let ghost sp = url_spans(t@);
    let mut j: usize = 0;
    while j < spans.len()
        invariant
            t@ == line@,
            spans@.map_values(|p: (usize, usize)| (p.0 as int, p.1 as int)) == sp,
            sp == url_spans(t@),
            j <= spans.len(),
            forall|k: int| 0 <= k < j ==> x + (#[trigger] sp[k]).1 <= u16::MAX,
        decreases spans.len() - j,
    {
        assert(sp[j as int] == (spans@[j as int].0 as int, spans@[j as int].1 as int));
        if spans[j].1 > (u16::MAX - x) as usize {
            return false;
        }
        j = j + 1;
    }
    true
}

proof fn lemma_line_regions(t: Seq<char>, row: u16, x: u16, rs: Seq<UrlHitRegion>)
    requires
        line_urls_fit(t, x),
        rs.len() == url_spans(t).len(),
        forall|j: int|
            0 <= j < rs.len() ==> {
                let sp = url_spans(t)[j];
                &&& (#[trigger] rs[j]).row == row
                &&& rs[j].col_start == x + (sp.0 as u16)
                &&& rs[j].col_end == x + (sp.1 as u16)
                &&& rs[j].url@ == t.subrange(sp.0, sp.1)
            },
    ensures
        rs.map_values(|h: UrlHitRegion| (h.row, h.col_start, h.col_end, h.url@)) == line_url_regions(t, row, x),
{
    law_url_spans_well_formed(t);
    let m = rs.map_values(|h: UrlHitRegion| (h.row, h.col_start, h.col_end, h.url@));
    let want = line_url_regions(t, row, x);
    assert forall|j: int| 0 <= j < rs.len() implies #[trigger] m[j] == want[j] by {
        let sp = url_spans(t)[j];
        assert(x + sp.1 <= u16::MAX);
    }
    assert(m =~= want);
}

/// The URL regions of a card's title lines, the first drawn on row `row_start` and each next
/// one a row lower, all from column `text_x`; `None` where a row or a URL would pass the
/// `u16` coordinates.
pub fn card_url_regions(lines: &Vec<String>, row_start: u16, text_x: u16) -> (r: Option<
    Vec<UrlHitRegion>,
>)
    ensures
        r is Some <==> card_fits(lines@.map_values(|s: String| s@), row_start, text_x),
        match r {
            Some(v) => v@.map_values(|h: UrlHitRegion| (h.row, h.col_start, h.col_end, h.url@))
                == card_url_regions_spec(lines@.map_values(|s: String| s@), row_start, text_x),
            None => true,
        },
{
    let ghost ls = lines@.map_values(|s: String| s@);
    if lines.len() > 0 && lines.len() - 1 > (u16::MAX - row_start) as usize {
        return None;
    }
    let mut l: usize = 0;
    while l < lines.len()
        invariant
            ls == lines@.map_values(|s: String| s@),
            l <= lines.len(),
            forall|k: int| 0 <= k < l ==> line_urls_fit(#[trigger] ls[k], text_x),
        decreases lines.len() - l,
    {
        if !line_urls_fit_check(&lines[l], text_x) {
            assert(!line_urls_fit(ls[l as int], text_x));
            return None;
        }
        l = l + 1;
    }
    let mut out: Vec<UrlHitRegion> = Vec::new();
    let mut l: usize = 0;
    while l < lines.len()
        invariant
            ls == lines@.map_values(|s: String| s@),
            card_fits(ls, row_start, text_x),
            l <= lines.len(),
            out@.map_values(|h: UrlHitRegion| (h.row, h.col_start, h.col_end, h.url@))
                == card_url_regions_spec(ls.take(l as int), row_start, text_x),
        decreases lines.len() - l,
    {
        let row = row_start + l as u16;
        let ghost t = ls[l as int];
        assert(line_urls_fit(t, text_x));
        proof {
            law_url_spans_well_formed(t);
        }
        let mut rs = list_item_url_regions(&lines[l], row, text_x);
        proof {
            lemma_line_regions(t, row, text_x, rs@);
            assert(ls.take(l + 1).drop_last() =~= ls.take(l as int));
        }
        let ghost before = out@;
        out.append(&mut rs);
        proof {
            assert(out@.map_values(|h: UrlHitRegion| (h.row, h.col_start, h.col_end, h.url@))
                =~= before.map_values(|h: UrlHitRegion| (h.row, h.col_start, h.col_end, h.url@))
                + line_url_regions(t, row, text_x));
        }
        l = l + 1;
    }
    proof {
        assert(ls.take(lines.len() as int) =~= ls);
    }
    Some(out)
}

/// Each unit of `t` from `p` on is a run of spaces followed by a run of non-spaces, as
/// `skip_spaces` and `skip_word` find them; only the last unit may lack a word, and only the
/// first may lack spaces (unless the text from `p` starts with one).
proof fn lemma_entry_chars(t: Seq<char>, p: int)
    requires
        0 <= p <= t.len(),
    ensures
        forall|i: int|
            0 <= i < wrap_entries_from(t, p).len() ==> {
                let en = #[trigger] wrap_entries_from(t, p)[i];
                &&& p <= en.0 < entry_end(en)
                &&& forall|m: int| en.0 <= m < en.2 ==> t[m] == ' '
                &&& forall|m: int| en.2 <= m < entry_end(en) ==> t[m] != ' '
                &&& skip_spaces(t, en.0) == en.2
                &&& skip_word(t, en.2) == entry_end(en)
                &&& i + 1 < wrap_entries_from(t, p).len() ==> en.3 > 0
                &&& (i > 0 || t[p] == ' ') ==> en.1 > 0
            },
    decreases t.len() - p,
{
    if p < t.len() {
        lemma_skip_spaces(t, p);
        let q = skip_spaces(t, p);
        if q < t.len() {
            lemma_skip_word(t, q);
            let e = skip_word(t, q);
            assert(t[q] != ' ');
            lemma_entry_chars(t, e);
            lemma_entries(t, e);
            let rest = wrap_entries_from(t, e);
            let es = wrap_entries_from(t, p);
            assert(es == seq![(p, q - p, q, e - q)] + rest);
            assert forall|i: int| 0 < i < es.len() implies es[i] == rest[i - 1] by {}
            if rest.len() > 0 {
                assert(t[e] == ' ');
            }
        } else {
            assert(skip_word(t, q) == q);
        }
    }
}

/// Cell `(k, c, row)` of a layout of `t` at `width` columns lies inside the width, or else the
/// characters from `k - c` (the one in column 0 of its row) to `k` are a run of spaces
/// followed by a run of non-spaces: a single word (with the spaces before it) that starts
/// its row.
pub open spec fn cell_in_width(t: Seq<char>, width: int, cell: (int, int, int)) -> bool {
    cell.1 < width || (0 <= cell.0 - cell.1 && forall|j: int|
        cell.0 - cell.1 < j <= cell.0 && #[trigger] t[j] == ' ' ==> t[j - 1] == ' ')
}

proof fn lemma_place_in_width(t: Seq<char>, es: Seq<(int, int, int, int)>, n: int, w: int)
    requires
        0 <= n <= es.len(),
        forall|i: int|
            0 <= i < es.len() ==> (#[trigger] es[i]).1 >= 0 && es[i].3 >= 0 && es[i].2 == es[i].0
                + es[i].1 && entry_end(es[i]) <= t.len(),
        forall|i: int|
            0 <= i < es.len() ==> {
                let en = #[trigger] es[i];
                &&& 0 <= en.0
                &&& forall|m: int| en.0 <= m < en.2 ==> t[m] == ' '
                &&& forall|m: int| en.2 <= m < entry_end(en) ==> t[m] != ' '
            },
    ensures
        forall|i: int|
            0 <= i < place_entries(es.take(n), w).0.len() ==> cell_in_width(
                t,
                w,
                #[trigger] place_entries(es.take(n), w).0[i],
            ),
    decreases n,
{
    if n > 0 {
        lemma_place_in_width(t, es, n - 1, w);
        assert(es.take(n).drop_last() =~= es.take(n - 1));
        assert(es.take(n).last() == es[n - 1]);
        let st = place_entries(es.take(n - 1), w);
        let en = es[n - 1];
        let out = place_entries(es.take(n), w).0;
        assert(en.1 >= 0 && en.3 >= 0 && 0 <= en.0);
        assert forall|i: int| 0 <= i < out.len() implies cell_in_width(t, w, #[trigger] out[i]) by {
            if i < st.0.len() {
                assert(out[i] == st.0[i]);
            } else {
                let cell = out[i];
                if st.1 > 0 && st.1 + en.1 + en.3 > w {
                    assert(cell.0 - cell.1 == en.2);
                    assert forall|j: int| cell.0 - cell.1 < j <= cell.0 implies #[trigger] t[j] != ' ' by {
                        assert(en.2 <= j < entry_end(en));
                    }
                } else if st.1 > 0 {
                    assert(cell.1 < w);
                } else {
                    assert(cell.0 - cell.1 == en.0 - st.1);
                    assert forall|j: int| cell.0 - cell.1 < j <= cell.0 && #[trigger] t[j] == ' '
                        implies t[j - 1] == ' ' by {
                        if j >= en.2 {
                            assert(en.2 <= j < entry_end(en));
                        }
                    }
                }
            }
        }
    }
}

/// Word wrapping keeps each line within the width: a character is placed at or past column
/// `width` only inside a single word too long for a line of its own, which then starts its
/// row (after the spaces that open the text, on the first row). A unit of spaces and word
/// stays on the current line only when it fits there whole.
pub proof fn law_wrap_stays_within_width(t: Seq<char>, width: u16)
    ensures
        forall|i: int|
            0 <= i < wrap_layout(t, width as int).len() ==> cell_in_width(
                t,
                width as int,
                #[trigger] wrap_layout(t, width as int)[i],
            ),
{
    let es = wrap_entries_from(t, 0);
    lemma_entries(t, 0);
    lemma_entry_chars(t, 0);
    lemma_place_in_width(t, es, es.len() as int, width as int);
    assert(es.take(es.len() as int) =~= es);
}

/// The cell placed after cell `a = (k, c, row)` when wrapping `t` at `width` columns. After a
/// word's last character that spaces follow, the unit of those spaces and the next word
/// stays on the row when it fits there whole, its spaces included; else its spaces are
/// dropped and its word starts the next row at column 0. Any other character is followed by
/// the next one, in the next column.
pub open spec fn next_cell(t: Seq<char>, width: int, a: (int, int, int)) -> (int, int, int) {
    let k = a.0;
    let ws = skip_spaces(t, k + 1);
    if t[k] != ' ' && k + 1 < t.len() && t[k + 1] == ' ' && a.1 + (skip_word(t, ws) - k) > width {
        (ws, 0, a.2 + 1)
    } else {
        (k + 1, a.1 + 1, a.2)
    }
}

/// Each cell of `s` is followed by the one `next_cell` gives.
pub open spec fn cells_chain(t: Seq<char>, width: int, s: Seq<(int, int, int)>) -> bool {
    forall|i: int| 0 <= i < s.len() - 1 ==> next_cell(t, width, #[trigger] s[i]) == s[i + 1]
}

proof fn lemma_chain_concat(t: Seq<char>, w: int, x: Seq<(int, int, int)>, y: Seq<(int, int, int)>)
    requires
        cells_chain(t, w, x),
        cells_chain(t, w, y),
        x.len() > 0 && y.len() > 0 ==> next_cell(t, w, x.last()) == y[0],
    ensures
        cells_chain(t, w, x + y),
{
    let z = x + y;
    assert forall|i: int| 0 <= i < z.len() - 1 implies next_cell(t, w, #[trigger] z[i]) == z[i + 1] by {
        if i < x.len() - 1 {
            assert(z[i] == x[i] && z[i + 1] == x[i + 1]);
        } else if i == x.len() - 1 {
            assert(z[i] == x.last() && z[i + 1] == y[0]);
        } else {
            assert(z[i] == y[i - x.len()] && z[i + 1] == y[i - x.len() + 1]);
        }
    }
}

/// A run of consecutive characters in consecutive columns of one row, with no word ending
/// before a space inside it, chains.
proof fn lemma_chain_run(t: Seq<char>, w: int, k0: int, c0: int, r: int, len: nat)
    requires
        forall|i: int|
            0 <= i < len - 1 ==> !(t[k0 + i] != ' ' && #[trigger] t[k0 + i + 1] == ' '),
    ensures
        cells_chain(t, w, Seq::new(len, |i: int| (k0 + i, c0 + i, r))),
{
    let s = Seq::new(len, |i: int| (k0 + i, c0 + i, r));
    assert forall|i: int| 0 <= i < s.len() - 1 implies next_cell(t, w, #[trigger] s[i]) == s[i + 1] by {
        assert(!(t[k0 + i] != ' ' && t[k0 + i + 1] == ' '));
    }
}

/// The placed cells chain, start at the origin, and the last one, while the row holds any,
/// is the character before `end` in the column before `st.1`.
pub open spec fn placed_ok(t: Seq<char>, w: int, st: (Seq<(int, int, int)>, int, int), end: int) -> bool {
    &&& cells_chain(t, w, st.0)
    &&& st.0.len() > 0 ==> st.0[0] == (0int, 0int, 0int)
    &&& st.1 > 0 ==> st.0.len() > 0 && st.0.last() == (end - 1, st.1 - 1, st.2)
}

/// What a unit of `t` is: spaces from `en.0`, then a word from `en.2`, up to its end.
pub open spec fn unit_of(t: Seq<char>, en: (int, int, int, int)) -> bool {
    &&& en.1 >= 0 && en.3 >= 0 && en.2 == en.0 + en.1
    &&& 0 <= en.0 < entry_end(en) <= t.len()
    &&& forall|m: int| en.0 <= m < en.2 ==> t[m] == ' '
    &&& forall|m: int| en.2 <= m < entry_end(en) ==> t[m] != ' '
    &&& skip_spaces(t, en.0) == en.2
    &&& skip_word(t, en.2) == entry_end(en)
}

#[verifier::spinoff_prover]
proof fn lemma_step_first(t: Seq<char>, w: int, en: (int, int, int, int))
    requires
        unit_of(t, en),
        en.0 == 0,
    ensures
        placed_ok(t, w, place_entry((seq![], 0, 0), en, w), entry_end(en)),
        place_entry((seq![], 0, 0), en, w).1 > 0,
{
    let st: (Seq<(int, int, int)>, int, int) = (seq![], 0, 0);
    let new = place_entry(st, en, w);
    let run = Seq::new((en.1 + en.3) as nat, |i: int| (en.0 + i, i, 0int));
    let sp = Seq::new(en.1 as nat, |k: int| (en.0 + k, 0 + k, 0int));
    let wd = Seq::new(en.3 as nat, |k: int| (en.2 + k, 0 + en.1 + k, 0int));
    assert(new.0 == st.0 + sp + wd);
    assert(st.0 + sp + wd =~= run);
    assert forall|i: int|
        0 <= i < (en.1 + en.3) - 1 implies !(t[en.0 + i] != ' ' && #[trigger] t[en.0 + i + 1]
        == ' ') by {
        if t[en.0 + i] != ' ' {
            assert(!(en.0 <= en.0 + i < en.2));
            assert(en.2 <= en.0 + i + 1 < entry_end(en));
        }
    }
    lemma_chain_run(t, w, en.0, 0, 0, (en.1 + en.3) as nat);
    assert(run[0] == (0int, 0int, 0int));
    assert(new.0.last() == run[run.len() - 1]);
}

#[verifier::spinoff_prover]
proof fn lemma_step_wrap(t: Seq<char>, w: int, st: (Seq<(int, int, int)>, int, int), en: (int, int, int, int))
    requires
        unit_of(t, en),
        placed_ok(t, w, st, en.0),
        st.1 > 0,
        st.1 + en.1 + en.3 > w,
        en.1 > 0,
        t[en.0 - 1] != ' ',
    ensures
        placed_ok(t, w, place_entry(st, en, w), entry_end(en)),
        place_entry(st, en, w).0.len() > 0,
        place_entry(st, en, w).1 <= 0 ==> en.3 == 0 && next_cell(t, w, place_entry(st, en, w).0.last()).0
            == en.2,
{
    let row = st.2;
    let new = place_entry(st, en, w);
    let k = en.0 - 1;
    assert(st.0.last() == (k, st.1 - 1, row));
    assert(t[k + 1] == ' ');
    assert(next_cell(t, w, st.0.last()) == (en.2, 0int, row + 1));
    let wd = Seq::new(en.3 as nat, |i: int| (en.2 + i, i, row + 1));
    assert(new.0 == st.0 + wd);
    assert forall|i: int| 0 <= i < en.3 - 1 implies !(t[en.2 + i] != ' ' && #[trigger] t[en.2 + i
        + 1] == ' ') by {
        assert(en.2 <= en.2 + i + 1 < entry_end(en));
    }
    lemma_chain_run(t, w, en.2, 0, row + 1, en.3 as nat);
    lemma_chain_concat(t, w, st.0, wd);
    if en.3 > 0 {
        assert(new.0.last() == wd[wd.len() - 1]);
        assert(new.0[0] == st.0[0]);
    } else {
        assert(new.0 =~= st.0);
    }
}

/// A unit placed whole on a row from column `col` is one chaining run of cells.
proof fn lemma_unit_run(t: Seq<char>, w: int, en: (int, int, int, int), col: int, row: int)
    requires
        unit_of(t, en),
    ensures
        Seq::new(en.1 as nat, |i: int| (en.0 + i, col + i, row)) + Seq::new(
            en.3 as nat,
            |i: int| (en.2 + i, col + en.1 + i, row),
        ) == Seq::new((en.1 + en.3) as nat, |i: int| (en.0 + i, col + i, row)),
        cells_chain(t, w, Seq::new((en.1 + en.3) as nat, |i: int| (en.0 + i, col + i, row))),
{
    let run = Seq::new((en.1 + en.3) as nat, |i: int| (en.0 + i, col + i, row));
    let sp = Seq::new(en.1 as nat, |i: int| (en.0 + i, col + i, row));
    let wd = Seq::new(en.3 as nat, |i: int| (en.2 + i, col + en.1 + i, row));
    assert(sp + wd =~= run);
    assert forall|i: int|
        0 <= i < (en.1 + en.3) - 1 implies !(t[en.0 + i] != ' ' && #[trigger] t[en.0 + i + 1]
        == ' ') by {
        if t[en.0 + i] != ' ' {
            assert(!(en.0 <= en.0 + i < en.2));
            assert(en.2 <= en.0 + i + 1 < entry_end(en));
        }
    }
    lemma_chain_run(t, w, en.0, col, row, (en.1 + en.3) as nat);
}

/// After a word's last character, a unit that fits on the row continues it.
proof fn lemma_next_stays(t: Seq<char>, w: int, a: (int, int, int), en: (int, int, int, int))
    requires
        unit_of(t, en),
        a.0 == en.0 - 1,
        t[a.0] != ' ',
        en.1 > 0,
        a.1 + 1 + en.1 + en.3 <= w,
    ensures
        next_cell(t, w, a) == (en.0, a.1 + 1, a.2),
{
    assert(t[en.0] == ' ');
}

#[verifier::spinoff_prover]
#[verifier::rlimit(40)]
proof fn lemma_step_stay(t: Seq<char>, w: int, st: (Seq<(int, int, int)>, int, int), en: (int, int, int, int))
    requires
        unit_of(t, en),
        placed_ok(t, w, st, en.0),
        st.1 > 0,
        st.1 + en.1 + en.3 <= w,
        en.1 > 0,
        t[en.0 - 1] != ' ',
    ensures
        placed_ok(t, w, place_entry(st, en, w), entry_end(en)),
        place_entry(st, en, w).1 > 0,
{
    let col = st.1;
    let row = st.2;
    let new = place_entry(st, en, w);
    let k = en.0 - 1;
    assert(st.0.last() == (k, col - 1, row));
    lemma_next_stays(t, w, st.0.last(), en);
    let run = Seq::new((en.1 + en.3) as nat, |i: int| (en.0 + i, col + i, row));
    let sp = Seq::new(en.1 as nat, |i: int| (en.0 + i, col + i, row));
    let wd = Seq::new(en.3 as nat, |i: int| (en.2 + i, col + en.1 + i, row));
    assert(new.0 == st.0 + sp + wd);
    lemma_unit_run(t, w, en, col, row);
    assert(st.0 + sp + wd =~= st.0 + (sp + wd));
    lemma_chain_concat(t, w, st.0, run);
    assert(new.0.last() == run[run.len() - 1]);
    assert(new.0[0] == st.0[0]);
}

#[verifier::spinoff_prover]
proof fn lemma_place_chain(t: Seq<char>, es: Seq<(int, int, int, int)>, n: int, w: int)
    requires
        0 <= n <= es.len(),
        es.len() > 0 ==> es[0].0 == 0,
        forall|i: int| 0 < i < es.len() ==> (#[trigger] es[i]).0 == entry_end(es[i - 1]),
        forall|i: int| 0 <= i < es.len() ==> unit_of(t, #[trigger] es[i]),
        forall|i: int| 0 <= i < es.len() - 1 ==> (#[trigger] es[i]).3 > 0,
        forall|i: int| 0 < i < es.len() ==> (#[trigger] es[i]).1 > 0,
    ensures
        ({
            let st = place_entries(es.take(n), w);
            &&& n == 0 ==> st.0.len() == 0 && st.1 == 0
            &&& n > 0 ==> placed_ok(t, w, st, entry_end(es[n - 1]))
            &&& n > 0 && st.1 <= 0 ==> n == es.len() && es[n - 1].3 == 0 && st.0.len() > 0
                && next_cell(t, w, st.0.last()).0 == es[n - 1].2
        }),
    decreases n,
{
    if n == 0 {
        assert(es.take(0) =~= Seq::<(int, int, int, int)>::empty());
    } else {
        lemma_place_chain(t, es, n - 1, w);
        assert(es.take(n).drop_last() =~= es.take(n - 1));
        assert(es.take(n).last() == es[n - 1]);
        let st = place_entries(es.take(n - 1), w);
        let en = es[n - 1];
        assert(unit_of(t, en));
        if n - 1 == 0 {
            assert(st.0 =~= Seq::<(int, int, int)>::empty());
            lemma_step_first(t, w, en);
        } else {
            let prev = es[n - 2];
            assert(unit_of(t, prev));
            assert(en.0 == entry_end(prev));
            assert(prev.3 > 0);
            assert(t[en.0 - 1] != ' ');
            assert(en.1 > 0);
            if st.1 + en.1 + en.3 > w {
                lemma_step_wrap(t, w, st, en);
            } else {
                lemma_step_stay(t, w, st, en);
            }
        }
    }
}

/// Word wrapping, cell by cell: a non-empty text's layout starts with its first character in
/// column 0 of row 0; each placed cell is followed by the one `next_cell` gives (the next
/// character in the next column, or, where a unit of spaces and word does not fit on the
/// row, that word at column 0 of the next row with the spaces dropped); and the layout ends
/// with the cell after which `next_cell` would run past the text.
pub proof fn law_wrap_cell_by_cell(t: Seq<char>, width: u16)
    ensures
        wrap_layout(t, width as int).len() == 0 <==> t.len() == 0,
        t.len() > 0 ==> wrap_layout(t, width as int)[0] == (0int, 0int, 0int),
        cells_chain(t, width as int, wrap_layout(t, width as int)),
        t.len() > 0 ==> next_cell(t, width as int, wrap_layout(t, width as int).last()).0 == t.len(),
{
    let es = wrap_entries_from(t, 0);
    lemma_entries(t, 0);
    lemma_entry_chars(t, 0);
    assert forall|i: int| 0 <= i < es.len() implies unit_of(t, #[trigger] es[i]) by {}
    lemma_place_chain(t, es, es.len() as int, width as int);
    assert(es.take(es.len() as int) =~= es);
    if t.len() > 0 {
        let st = place_entries(es, width as int);
        let last = es[es.len() - 1];
        assert(entry_end(last) == t.len());
    }
}

/// Cell `i` of `cm` is a character whose byte offset lies in `[us, ue)`, shown on screen row
/// `r` (rows shifted by `base_row`).
pub open spec fn span_cell_on(cm: Seq<(usize, u16, u16)>, i: int, us: usize, ue: usize, base_row: u16, r: int) -> bool {
    0 <= i < cm.len() && us <= cm[i].0 < ue && base_row + cm[i].2 == r
}

/// The grouping of a URL's cells by row is exact: a row is grouped exactly when some cell of
/// the URL is shown on it, and then its range runs from the leftmost such cell's column to
/// just past the rightmost one's, covering every cell of the URL on that row.
pub proof fn law_url_row_groups(
    cm: Seq<(usize, u16, u16)>,
    us: usize,
    ue: usize,
    base_row: u16,
    base_col: u16,
)
    requires
        forall|i: int|
            0 <= i < cm.len() && us <= (#[trigger] cm[i]).0 < ue ==> base_row + cm[i].2 <= u16::MAX
                && base_col + cm[i].1 + 1 <= u16::MAX,
    ensures
        ({
            let m = span_row_groups(cm, us, ue, base_row, base_col);
            &&& forall|r: u16|
                #[trigger] m.contains_key(r) <==> exists|i: int| span_cell_on(cm, i, us, ue, base_row, r as int)
            &&& forall|r: u16|
                #[trigger] m.contains_key(r) ==> {
                    &&& exists|i: int|
                        span_cell_on(cm, i, us, ue, base_row, r as int) && base_col + cm[i].1 == m[r].0
                    &&& exists|i: int|
                        span_cell_on(cm, i, us, ue, base_row, r as int) && base_col + cm[i].1 + 1 == m[r].1
                    &&& forall|i: int|
                        span_cell_on(cm, i, us, ue, base_row, r as int) ==> m[r].0 <= base_col
                            + cm[i].1 < m[r].1
                }
        }),
    decreases cm.len(),
{
    if cm.len() > 0 {
        let pre = cm.drop_last();
        law_url_row_groups(pre, us, ue, base_row, base_col);
        let m0 = span_row_groups(pre, us, ue, base_row, base_col);
        let m = span_row_groups(cm, us, ue, base_row, base_col);
        let n = cm.len() - 1;
        let e = cm[n];
        assert(cm.last() == e);
        assert forall|i: int, r: int| span_cell_on(pre, i, us, ue, base_row, r) <==> span_cell_on(cm, i, us, ue, base_row, r) && i < n by {
            if 0 <= i < n {
                assert(pre[i] == cm[i]);
            }
        }
        if us <= e.0 < ue {
            let row = (base_row + e.2) as u16;
            let col = (base_col + e.1) as u16;
            assert(span_cell_on(cm, n, us, ue, base_row, row as int));
            assert forall|r: u16| #[trigger] m.contains_key(r) <==> exists|i: int|
                span_cell_on(cm, i, us, ue, base_row, r as int) by {
                if r != row {
                    if exists|i: int| span_cell_on(cm, i, us, ue, base_row, r as int) {
                        let i = choose|i: int| span_cell_on(cm, i, us, ue, base_row, r as int);
                        assert(i != n);
                        assert(span_cell_on(pre, i, us, ue, base_row, r as int));
                    }
                    if m0.contains_key(r) {
                        let i = choose|i: int| span_cell_on(pre, i, us, ue, base_row, r as int);
                        assert(span_cell_on(cm, i, us, ue, base_row, r as int));
                    }
                }
            }
            assert forall|r: u16| #[trigger] m.contains_key(r) implies {
                &&& exists|i: int|
                    span_cell_on(cm, i, us, ue, base_row, r as int) && base_col + cm[i].1 == m[r].0
                &&& exists|i: int|
                    span_cell_on(cm, i, us, ue, base_row, r as int) && base_col + cm[i].1 + 1 == m[r].1
                &&& forall|i: int|
                    span_cell_on(cm, i, us, ue, base_row, r as int) ==> m[r].0 <= base_col + cm[i].1
                        < m[r].1
            } by {
                if r != row {
                    assert(m[r] == m0[r]);
                    let i0 = choose|i: int|
                        span_cell_on(pre, i, us, ue, base_row, r as int) && base_col + pre[i].1 == m0[r].0;
                    let i1 = choose|i: int|
                        span_cell_on(pre, i, us, ue, base_row, r as int) && base_col + pre[i].1 + 1
                            == m0[r].1;
                    assert(span_cell_on(cm, i0, us, ue, base_row, r as int) && cm[i0] == pre[i0]);
                    assert(span_cell_on(cm, i1, us, ue, base_row, r as int) && cm[i1] == pre[i1]);
                    assert forall|i: int| span_cell_on(cm, i, us, ue, base_row, r as int) implies m[r].0
                        <= base_col + cm[i].1 < m[r].1 by {
                        assert(i != n);
                        assert(span_cell_on(pre, i, us, ue, base_row, r as int) && cm[i] == pre[i]);
                    }
                } else if m0.contains_key(row) {
                    let cur = m0[row];
                    let i0 = choose|i: int|
                        span_cell_on(pre, i, us, ue, base_row, r as int) && base_col + pre[i].1 == cur.0;
                    let i1 = choose|i: int|
                        span_cell_on(pre, i, us, ue, base_row, r as int) && base_col + pre[i].1 + 1
                            == cur.1;
                    assert(span_cell_on(cm, i0, us, ue, base_row, r as int) && cm[i0] == pre[i0]);
                    assert(span_cell_on(cm, i1, us, ue, base_row, r as int) && cm[i1] == pre[i1]);
                    assert forall|i: int| span_cell_on(cm, i, us, ue, base_row, r as int) implies m[r].0
                        <= base_col + cm[i].1 < m[r].1 by {
                        if i != n {
                            assert(span_cell_on(pre, i, us, ue, base_row, r as int) && cm[i] == pre[i]);
                        }
                    }
                } else {
                    assert forall|i: int| span_cell_on(cm, i, us, ue, base_row, r as int) implies m[r].0
                        <= base_col + cm[i].1 < m[r].1 by {
                        if i != n {
                            assert(span_cell_on(pre, i, us, ue, base_row, r as int));
                            assert(m0.contains_key(r));
                        }
                    }
                }
            }
        } else {
            assert(m == m0);
            assert forall|r: u16| #[trigger] m.contains_key(r) <==> exists|i: int|
                span_cell_on(cm, i, us, ue, base_row, r as int) by {
                if exists|i: int| span_cell_on(cm, i, us, ue, base_row, r as int) {
                    let i = choose|i: int| span_cell_on(cm, i, us, ue, base_row, r as int);
                    assert(i != n);
                    assert(span_cell_on(pre, i, us, ue, base_row, r as int));
                }
                if m0.contains_key(r) {
                    let i = choose|i: int| span_cell_on(pre, i, us, ue, base_row, r as int);
                    assert(span_cell_on(cm, i, us, ue, base_row, r as int));
                }
            }
            assert forall|r: u16| #[trigger] m.contains_key(r) implies {
                &&& exists|i: int|
                    span_cell_on(cm, i, us, ue, base_row, r as int) && base_col + cm[i].1 == m[r].0
                &&& exists|i: int|
                    span_cell_on(cm, i, us, ue, base_row, r as int) && base_col + cm[i].1 + 1 == m[r].1
                &&& forall|i: int|
                    span_cell_on(cm, i, us, ue, base_row, r as int) ==> m[r].0 <= base_col + cm[i].1
                        < m[r].1
            } by {
                let i0 = choose|i: int|
                    span_cell_on(pre, i, us, ue, base_row, r as int) && base_col + pre[i].1 == m0[r].0;
                let i1 = choose|i: int|
                    span_cell_on(pre, i, us, ue, base_row, r as int) && base_col + pre[i].1 + 1 == m0[r].1;
                assert(span_cell_on(cm, i0, us, ue, base_row, r as int) && cm[i0] == pre[i0]);
                assert(span_cell_on(cm, i1, us, ue, base_row, r as int) && cm[i1] == pre[i1]);
                assert forall|i: int| span_cell_on(cm, i, us, ue, base_row, r as int) implies m[r].0
                    <= base_col + cm[i].1 < m[r].1 by {
                    assert(i != n);
                    assert(span_cell_on(pre, i, us, ue, base_row, r as int) && cm[i] == pre[i]);
                }
            }
        }
    }
}

} // verus!

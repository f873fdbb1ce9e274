use unicode_width::UnicodeWidthChar;
use vstd::prelude::*;
use crate::text::{
    byte_len, char_index_at, char_index_of_byte, chars_of, is_char_boundary_at, push_char,
    string_from_chars, utf8_len,
};

verus! {

/// The display width that the unicode-width crate gives `c` (`None` for control characters).
pub uninterp spec fn unicode_width_of(c: char) -> Option<usize>;

/// `UnicodeWidthChar::width` of the unicode-width crate. Its result is named
/// `unicode_width_of(c)`; the crate's source also shows that it is `None` exactly for the C0
/// and C1 control characters, `Some(1)` for printable ASCII, and never more than 3 columns.
#[verifier::external_body]
fn char_width(c: char) -> (w: Option<usize>)
    ensures
        w == unicode_width_of(c),
        w is None <==> ((c as u32) < 0x20 || 0x7F <= (c as u32) < 0xA0),
        0x20 <= (c as u32) < 0x7F ==> w == Some(1usize),
        w matches Some(n) ==> n <= 3,
{
    c.width()
}

/// Display columns that `c` takes: its width, or 0 for a control character.
pub open spec fn col_width(c: char) -> nat {
    match unicode_width_of(c) {
        Some(w) => w as nat,
        None => 0,
    }
}

/// Display columns of a character sequence.
pub open spec fn display_width(cs: Seq<char>) -> nat
    decreases cs.len(),
{
    if cs.len() == 0 {
        0
    } else {
        display_width(cs.drop_last()) + col_width(cs.last())
    }
}

/// Columns of `c`, as the wrapping code computes them.
fn columns_of(c: char) -> (w: usize)
    ensures
        w == col_width(c),
        w <= 3,
{
    match char_width(c) {
        Some(w) => w,
        None => 0,
    }
}

/// Greedy wrapping state after reading `s`: finished lines, the line being filled, and its width.
/// A character starts a new line when the current line is not empty and the character would
/// make it wider than `max_width`.
pub open spec fn wrap_state(s: Seq<char>, max_width: int) -> (Seq<Seq<char>>, Seq<char>, int)
    decreases s.len(),
{
    if s.len() == 0 {
        (seq![], seq![], 0)
    } else {
        let st = wrap_state(s.drop_last(), max_width);
        let c = s.last();
        if st.2 + col_width(c) > max_width && st.1.len() > 0 {
            (st.0.push(st.1), seq![c], col_width(c) as int)
        } else {
            (st.0, st.1.push(c), st.2 + col_width(c))
        }
    }
}

/// The lines of `s` wrapped at `max_width` display columns. A width of 0 leaves `s` whole;
/// an empty `s` gives one empty line.
pub open spec fn wrap_spec(s: Seq<char>, max_width: int) -> Seq<Seq<char>> {
    if max_width == 0 {
        seq![s]
    } else {
        let st = wrap_state(s, max_width);
        let lines = if st.1.len() > 0 {
            st.0.push(st.1)
        } else {
            st.0
        };
        if lines.len() == 0 {
            seq![seq![]]
        } else {
            lines
        }
    }
}

/// The views of a list of strings.
pub open spec fn string_views(v: Seq<String>) -> Seq<Seq<char>> {
    v.map_values(|l: String| l@)
}

/// Wraps `s` into lines whose display width is at most `max_width` columns (a line that holds
/// a single wider character is the exception). Wide characters count as 2 columns.
pub fn wrap_str(s: &str, max_width: usize) -> (r: Vec<String>)
    ensures
        string_views(r@) == wrap_spec(s@, max_width as int),
{
    if max_width == 0 {
        let mut v: Vec<String> = Vec::new();
        v.push(s.to_owned());
        assert(string_views(v@) =~= wrap_spec(s@, max_width as int));
        return v;
    }
    let cs = chars_of(s);
    let mut lines: Vec<String> = Vec::new();
    let mut line = String::new();
    let mut line_len: usize = 0;
    let mut width: usize = 0;
    let mut i: usize = 0;
    while i < cs.len()
        invariant
            0 < max_width,
            i <= cs.len(),
            cs@ == s@,
            line_len == line@.len(),
            line_len <= i,
            line_len == 0 ==> width == 0,
            width <= max_width || width <= 3,
            wrap_state(cs@.take(i as int), max_width as int) == (string_views(lines@), line@, width as int),
        decreases cs.len() - i,
    {
        let ch = cs[i];
        let cw = columns_of(ch);
        assert(cs@.take(i + 1).drop_last() =~= cs@.take(i as int));
        assert(cs@.take(i + 1).last() == ch);
        let exceeds = width > max_width || cw > max_width - width;
        if exceeds && line_len > 0 {
            let finished = line;
            let ghost before = lines@;
            lines.push(finished);
            assert(string_views(lines@) =~= string_views(before).push(finished@));
            line = String::new();
            line_len = 0;
            width = 0;
        }
        push_char(&mut line, ch);
        line_len = line_len + 1;
        width = width + cw;
        i += 1;
    }
    assert(cs@.take(cs.len() as int) =~= cs@);
    if line_len > 0 {
        let ghost before = lines@;
        lines.push(line);
        assert(string_views(lines@) =~= string_views(before).push(wrap_state(s@, max_width as int).1));
    }
    if lines.len() == 0 {
        lines.push(String::new());
        assert(string_views(lines@) =~= seq![Seq::<char>::empty()]);
    }
    lines
}


/// Adding one character to a prefix adds its columns.
pub proof fn lemma_display_width_step(s: Seq<char>, i: int)
    requires
        0 <= i < s.len(),
    ensures
        display_width(s.take(i + 1)) == display_width(s.take(i)) + col_width(s[i]),
{
    assert(s.take(i + 1).drop_last() =~= s.take(i));
}

/// Longer prefixes are at least as wide.
pub proof fn lemma_display_width_mono(s: Seq<char>, i: int, j: int)
    requires
        0 <= i <= j <= s.len(),
    ensures
        display_width(s.take(i)) <= display_width(s.take(j)),
    decreases j - i,
{
    if i < j {
        lemma_display_width_step(s, j - 1);
        lemma_display_width_mono(s, i, j - 1);
    }
}

/// The length of the longest prefix of `s` that fits in `max_width` columns.
pub open spec fn fit_len(s: Seq<char>, max_width: int) -> nat
    decreases s.len(),
{
    if display_width(s) <= max_width || s.len() == 0 {
        s.len()
    } else {
        fit_len(s.drop_last(), max_width)
    }
}

/// `s` cut to `max_width` display columns: unchanged if it fits, else its longest fitting
/// prefix followed by `…` (no `…` when `max_width` is 0).
pub open spec fn truncate_spec(s: Seq<char>, max_width: int) -> Seq<char> {
    if display_width(s) <= max_width {
        s
    } else {
        s.take(fit_len(s, max_width) as int) + if max_width >= 1 {
            seq!['…']
        } else {
            seq![]
        }
    }
}

proof fn lemma_fit_len(s: Seq<char>, m: int, k: int)
    requires
        0 <= k < s.len(),
        display_width(s.take(k)) <= m,
        display_width(s.take(k + 1)) > m,
    ensures
        fit_len(s, m) == k,
    decreases s.len(),
{
    lemma_display_width_mono(s, k + 1, s.len() as int);
    assert(s.take(s.len() as int) =~= s);
    let d = s.drop_last();
    if k + 1 == s.len() {
        assert(d =~= s.take(k));
        assert(fit_len(d, m) == d.len());
    } else {
        assert(d.take(k) =~= s.take(k));
        assert(d.take(k + 1) =~= s.take(k + 1));
        lemma_fit_len(d, m, k);
    }
}

/// Cuts `s` to at most `max_width` display columns, ending it with `…` when it was cut.
/// Wide characters count as 2 columns.
pub fn truncate_str(s: &str, max_width: usize) -> (r: String)
    ensures
        r@ == truncate_spec(s@, max_width as int),
{
    let cs = chars_of(s);
    let mut width: usize = 0;
    let mut out = String::new();
    let mut i: usize = 0;
    assert(cs@.take(0) =~= Seq::<char>::empty());
    while i < cs.len()
        invariant
            i <= cs.len(),
            cs@ == s@,
            width <= max_width,
            width == display_width(cs@.take(i as int)),
            out@ == cs@.take(i as int),
        decreases cs.len() - i,
    {
        let ch = cs[i];
        let cw = columns_of(ch);
        proof {
            lemma_display_width_step(cs@, i as int);
        }
        if cw > max_width - width {
            proof {
                lemma_fit_len(cs@, max_width as int, i as int);
                lemma_display_width_mono(cs@, i + 1, cs.len() as int);
                assert(cs@.take(cs.len() as int) =~= cs@);
            }
            if max_width >= 1 {
                push_char(&mut out, '…');
            }
            assert(out@ =~= truncate_spec(s@, max_width as int));
            return out;
        }
        assert(cs@.take(i + 1) =~= out@.push(ch));
        push_char(&mut out, ch);
        width = width + cw;
        i += 1;
    }
    assert(cs@.take(cs.len() as int) =~= cs@);
    out
}


/// The characters of a list of lines, in order.
pub open spec fn concat_lines(ls: Seq<Seq<char>>) -> Seq<char>
    decreases ls.len(),
{
    if ls.len() == 0 {
        seq![]
    } else {
        concat_lines(ls.drop_last()) + ls.last()
    }
}

/// A line fits `max_width` columns, or holds a single character.
pub open spec fn line_fits(l: Seq<char>, max_width: int) -> bool {
    display_width(l) <= max_width || l.len() <= 1
}

proof fn lemma_wrap_state(s: Seq<char>, max_width: int)
    requires
        max_width > 0,
    ensures
        ({
            let st = wrap_state(s, max_width);
            &&& concat_lines(st.0) + st.1 == s
            &&& st.2 == display_width(st.1)
            &&& forall|i: int| 0 <= i < st.0.len() ==> (#[trigger] st.0[i]).len() > 0
            &&& forall|i: int| 0 <= i < st.0.len() ==> line_fits(#[trigger] st.0[i], max_width)
            &&& line_fits(st.1, max_width)
            &&& s.len() > 0 ==> st.1.len() > 0
            &&& st.0.len() + st.1.len() <= s.len()
        }),
    decreases s.len(),
{
    if s.len() > 0 {
        let d = s.drop_last();
        lemma_wrap_state(d, max_width);
        let st = wrap_state(d, max_width);
        let c = s.last();
        assert(s == d.push(c));
        assert(seq![c].drop_last() =~= Seq::<char>::empty());
        assert(display_width(seq![c]) == col_width(c)) by {
            assert(display_width(Seq::<char>::empty()) == 0);
        }
        if st.2 + col_width(c) > max_width && st.1.len() > 0 {
            let n0 = st.0.push(st.1);
            assert(n0.drop_last() =~= st.0);
            assert(concat_lines(n0) + seq![c] =~= concat_lines(st.0) + st.1 + seq![c]);
            assert forall|i: int| 0 <= i < n0.len() implies (#[trigger] n0[i]).len() > 0 && line_fits(n0[i], max_width) by {
                if i < st.0.len() {
                    assert(n0[i] == st.0[i]);
                }
            }
        } else {
            let l = st.1.push(c);
            assert(l.drop_last() =~= st.1);
            assert(concat_lines(st.0) + l =~= concat_lines(st.0) + st.1 + seq![c]);
            if !(display_width(l) <= max_width) {
                assert(st.1.len() == 0);
            }
        }
    }
}

/// Wrapping keeps every character in order: the lines, joined, give back `s`.
pub proof fn law_wrap_preserves_text(s: Seq<char>, max_width: int)
    requires
        max_width >= 0,
    ensures
        concat_lines(wrap_spec(s, max_width)) == s,
{
    if max_width == 0 {
        assert(seq![s].drop_last() =~= Seq::<Seq<char>>::empty());
        assert(concat_lines(Seq::<Seq<char>>::empty()) == Seq::<char>::empty());
        assert(concat_lines(seq![s]) =~= s);
    } else {
        lemma_wrap_state(s, max_width);
        let st = wrap_state(s, max_width);
        if st.1.len() > 0 {
            let lines = st.0.push(st.1);
            assert(lines.drop_last() =~= st.0);
        } else {
            assert(st.1 =~= Seq::<char>::empty());
            assert(concat_lines(st.0) + st.1 =~= concat_lines(st.0));
            if st.0.len() == 0 {
                let e = seq![Seq::<char>::empty()];
                assert(e.drop_last() =~= Seq::<Seq<char>>::empty());
                assert(concat_lines(Seq::<Seq<char>>::empty()) == Seq::<char>::empty());
                assert(concat_lines(e) =~= Seq::<char>::empty());
            }
        }
    }
}

/// With a positive width, every wrapped line fits the width or is a single character, no
/// line is empty unless the text is, and there are at least one and at most
/// `max(1, s.len())` lines.
pub proof fn law_wrap_lines_fit(s: Seq<char>, max_width: int)
    requires
        max_width > 0,
    ensures
        forall|i: int|
            0 <= i < wrap_spec(s, max_width).len() ==> line_fits(
                #[trigger] wrap_spec(s, max_width)[i],
                max_width,
            ),
        s.len() > 0 ==> forall|i: int|
            0 <= i < wrap_spec(s, max_width).len() ==> (#[trigger] wrap_spec(s, max_width)[i]).len()
                > 0,
        1 <= wrap_spec(s, max_width).len(),
        wrap_spec(s, max_width).len() <= if s.len() == 0 {
            1
        } else {
            s.len()
        },
{
    lemma_wrap_state(s, max_width);
    let st = wrap_state(s, max_width);
    if st.1.len() > 0 {
        let lines = st.0.push(st.1);
        assert forall|i: int| 0 <= i < lines.len() implies line_fits(#[trigger] lines[i], max_width) && lines[i].len() > 0 by {
            if i < st.0.len() {
                assert(lines[i] == st.0[i]);
            }
        }
    } else {
        if st.0.len() == 0 {
            let e = seq![Seq::<char>::empty()];
            assert(line_fits(e[0], max_width)) by {
                assert(display_width(Seq::<char>::empty()) == 0);
            }
        }
    }
}


/// The pieces of `s` between `\n` characters (always at least one, possibly empty).
pub open spec fn split_lines(s: Seq<char>) -> Seq<Seq<char>>
    decreases s.len(),
{
    if s.len() == 0 {
        seq![seq![]]
    } else {
        let p = split_lines(s.drop_last());
        let c = s.last();
        if c == '\n' {
            p.push(seq![])
        } else {
            p.update(p.len() - 1, p.last().push(c))
        }
    }
}

/// `split_lines` gives at least one piece, no piece holds `\n`, and the pieces together with
/// one separator between each pair account for every character.
pub proof fn lemma_split_lines(s: Seq<char>)
    ensures
        split_lines(s).len() >= 1,
        forall|i: int, j: int|
            0 <= i < split_lines(s).len() && 0 <= j < split_lines(s)[i].len() ==> #[trigger] split_lines(s)[i][j]
                != '\n',
        piece_chars(split_lines(s)) + split_lines(s).len() == s.len() + 1,
    decreases s.len(),
{
    if s.len() == 0 {
        let e = seq![Seq::<char>::empty()];
        assert(e.drop_last() =~= Seq::<Seq<char>>::empty());
        assert(piece_chars(Seq::<Seq<char>>::empty()) == 0);
        assert(piece_chars(e) == 0);
    } else {
        let d = s.drop_last();
        lemma_split_lines(d);
        let p = split_lines(d);
        let c = s.last();
        if c == '\n' {
            let q = p.push(seq![]);
            assert(q.drop_last() =~= p);
            assert(piece_chars(q) == piece_chars(p));
            assert forall|i: int, j: int| 0 <= i < q.len() && 0 <= j < q[i].len() implies #[trigger] q[i][j] != '\n' by {
                assert(q[i] == p[i]);
            }
        } else {
            let q = p.update(p.len() - 1, p.last().push(c));
            lemma_piece_chars_update_last(p, p.last().push(c));
            assert forall|i: int, j: int| 0 <= i < q.len() && 0 <= j < q[i].len() implies #[trigger] q[i][j] != '\n' by {
                if i < p.len() - 1 {
                    assert(q[i] == p[i]);
                } else {
                    if j < p.last().len() {
                        assert(q[i][j] == p[i][j]);
                    }
                }
            }
        }
    }
}

/// The total number of characters in a list of lines.
pub open spec fn piece_chars(ls: Seq<Seq<char>>) -> nat
    decreases ls.len(),
{
    if ls.len() == 0 {
        0
    } else {
        piece_chars(ls.drop_last()) + ls.last().len()
    }
}

proof fn lemma_piece_chars_update_last(p: Seq<Seq<char>>, l: Seq<char>)
    requires
        p.len() >= 1,
    ensures
        piece_chars(p.update(p.len() - 1, l)) == piece_chars(p) - p.last().len() + l.len(),
{
    let q = p.update(p.len() - 1, l);
    assert(q.drop_last() =~= p.drop_last());
}

/// The first `end` characters of `cs` cut at every `\n`.
fn split_newlines(cs: &Vec<char>, end: usize) -> (r: Vec<String>)
    requires
        end <= cs.len(),
    ensures
        string_views(r@) == split_lines(cs@.take(end as int)),
{
    let mut done: Vec<String> = Vec::new();
    let mut start: usize = 0;
    let mut i: usize = 0;
    assert(cs@.take(0) =~= Seq::<char>::empty());
    while i < end
        invariant
            end <= cs.len(),
            start <= i <= end,
            string_views(done@).push(cs@.subrange(start as int, i as int)) == split_lines(
                cs@.take(i as int),
            ),
        decreases end - i,
    {
        let ghost prev = string_views(done@).push(cs@.subrange(start as int, i as int));
        assert(cs@.take(i + 1).drop_last() =~= cs@.take(i as int));
        assert(cs@.take(i + 1).last() == cs@[i as int]);
        if cs[i] == '\n' {
            let piece = string_from_chars(cs, start, i);
            let ghost before = done@;
            done.push(piece);
            assert(string_views(done@) =~= string_views(before).push(piece@));
            assert(cs@.subrange(i + 1, i + 1) =~= Seq::<char>::empty());
            assert(string_views(done@).push(cs@.subrange(i + 1, i + 1)) =~= prev.push(seq![]));
            start = i + 1;
        } else {
            assert(cs@.subrange(start as int, i + 1) =~= cs@.subrange(start as int, i as int).push(cs@[i as int]));
            assert(string_views(done@).push(cs@.subrange(start as int, i + 1)) =~= prev.update(
                prev.len() - 1,
                prev.last().push(cs@[i as int]),
            ));
        }
        i += 1;
    }
    let last = string_from_chars(cs, start, end);
    let ghost before = done@;
    done.push(last);
    assert(string_views(done@) =~= string_views(before).push(last@));
    done
}

/// The wrapped lines of each piece, one after another.
pub open spec fn wrap_each(ls: Seq<Seq<char>>, max_width: int) -> Seq<Seq<char>>
    decreases ls.len(),
{
    if ls.len() == 0 {
        seq![]
    } else {
        wrap_each(ls.drop_last(), max_width) + wrap_spec(ls.last(), max_width)
    }
}

/// Multi-line text: each piece between `\n` characters wrapped at `max_width` columns.
pub open spec fn wrap_lines_spec(s: Seq<char>, max_width: int) -> Seq<Seq<char>> {
    wrap_each(split_lines(s), max_width)
}

/// Wraps multi-line text: splits at `\n`, then wraps each line at `max_width` columns.
pub fn wrap_lines(s: &str, max_width: usize) -> (r: Vec<String>)
    ensures
        string_views(r@) == wrap_lines_spec(s@, max_width as int),
{
    let cs = chars_of(s);
    let pieces = split_newlines(&cs, cs.len());
    assert(cs@.take(cs.len() as int) =~= cs@);
    let mut out: Vec<String> = Vec::new();
    let mut k: usize = 0;
    while k < pieces.len()
        invariant
            k <= pieces.len(),
            string_views(pieces@) == split_lines(s@),
            string_views(out@) == wrap_each(string_views(pieces@).take(k as int), max_width as int),
        decreases pieces.len() - k,
    {
        let wrapped = wrap_str(pieces[k].as_str(), max_width);
        let ghost before = string_views(out@);
        let mut j: usize = 0;
        while j < wrapped.len()
            invariant
                j <= wrapped.len(),
                string_views(out@) == before + string_views(wrapped@).take(j as int),
            decreases wrapped.len() - j,
        {
            let ghost o = out@;
            out.push(wrapped[j].clone());
            assert(string_views(out@) =~= string_views(o).push(wrapped@[j as int]@));
            assert(string_views(wrapped@).take(j + 1) =~= string_views(wrapped@).take(j as int).push(wrapped@[j as int]@));
            assert(string_views(out@) =~= before + string_views(wrapped@).take(j + 1));
            j += 1;
        }
        assert(string_views(wrapped@).take(wrapped.len() as int) =~= string_views(wrapped@));
        assert(string_views(pieces@).take(k + 1).drop_last() =~= string_views(pieces@).take(k as int));
        assert(string_views(pieces@).take(k + 1).last() == pieces@[k as int]@);
        k += 1;
    }
    assert(string_views(pieces@).take(pieces.len() as int) =~= string_views(pieces@));
    out
}


proof fn lemma_wrap_count(l: Seq<char>, w: int)
    requires
        w >= 0,
    ensures
        1 <= wrap_spec(l, w).len() <= l.len() + 1,
        wrap_spec(l, w).len() <= if l.len() == 0 { 1 } else { l.len() },
{
    if w > 0 {
        law_wrap_lines_fit(l, w);
    }
}

proof fn lemma_piece_chars_take(ls: Seq<Seq<char>>, i: int)
    requires
        0 <= i < ls.len(),
    ensures
        piece_chars(ls.take(i + 1)) == piece_chars(ls.take(i)) + ls[i].len(),
        piece_chars(ls.take(i + 1)) <= piece_chars(ls),
    decreases ls.len() - i,
{
    assert(ls.take(i + 1).drop_last() =~= ls.take(i));
    if i + 1 < ls.len() {
        lemma_piece_chars_take(ls, i + 1);
    } else {
        assert(ls.take(i + 1) =~= ls);
    }
}

/// The text before the byte offset `cursor` (clamped to the end of `buffer`).
pub open spec fn cursor_text(buffer: Seq<char>, cursor: int) -> Seq<char> {
    let b = if cursor < utf8_len(buffer) {
        cursor
    } else {
        utf8_len(buffer) as int
    };
    buffer.take(char_index_at(buffer, b))
}

/// `(row, column)` at the end of `before` when it is shown with each line wrapped at
/// `max_width` columns: the rows of the earlier lines and of the last line's wrap, and the
/// display width of its last visual row.
pub open spec fn cursor_spec(before: Seq<char>, max_width: int) -> (int, int) {
    let ls = split_lines(before);
    let last = wrap_spec(ls.last(), max_width);
    (wrap_each(ls.drop_last(), max_width).len() + last.len() - 1, display_width(last.last()) as int)
}

/// `cursor` lies on a character boundary of `buffer`, or at or past its end.
pub open spec fn cursor_ok(buffer: Seq<char>, cursor: int) -> bool {
    cursor >= utf8_len(buffer) || is_char_boundary_at(buffer, cursor)
}

/// The cursor's column can be counted in a `usize`: always when wrapping at a positive width.
pub open spec fn cursor_col_fits(buffer: Seq<char>, cursor: int, wrap_width: int) -> bool {
    wrap_width > 0 || display_width(split_lines(cursor_text(buffer, cursor)).last()) <= usize::MAX
}

/// The visual `(row, col)` of the byte offset `cursor` in `buffer` when each logical line is
/// wrapped at `wrap_width` display columns. Both are 0-based.
pub fn cursor_visual_position(buffer: &str, cursor: usize, wrap_width: usize) -> (r: (usize, usize))
    requires
        cursor_ok(buffer@, cursor as int),
        cursor_col_fits(buffer@, cursor as int, wrap_width as int),
    ensures
        (r.0 as int, r.1 as int) == cursor_spec(cursor_text(buffer@, cursor as int), wrap_width as int),
{
    let cs = chars_of(buffer);
    let total = byte_len(buffer);
    let c = if cursor < total {
        cursor
    } else {
        total
    };
    proof {
        if c == total {
            crate::text::lemma_take_full(cs@);
            crate::text::lemma_char_index_at(cs@, cs@.len() as int);
        }
    }
    let k = char_index_of_byte(&cs, c);
    let ghost before = cs@.take(k as int);
    let pieces = split_newlines(&cs, k);
    let ghost ls = split_lines(before);
    proof {
        lemma_split_lines(before);
    }
    let n = pieces.len();
    let mut visual_row: usize = 0;
    let mut i: usize = 0;
    assert(ls.take(0) =~= Seq::<Seq<char>>::empty());
    while i + 1 < n
        invariant
            n == pieces.len(),
            n == ls.len(),
            n >= 1,
            string_views(pieces@) == ls,
            ls == split_lines(before),
            piece_chars(ls) + ls.len() == before.len() + 1,
            before.len() <= cs.len(),
            i + 1 <= n,
            visual_row == wrap_each(ls.take(i as int), wrap_width as int).len(),
            visual_row <= piece_chars(ls.take(i as int)) + i,
        decreases n - i,
    {
        let wrapped = wrap_str(pieces[i].as_str(), wrap_width);
        proof {
            lemma_wrap_count(ls[i as int], wrap_width as int);
            lemma_piece_chars_take(ls, i as int);
            lemma_piece_chars_take(ls, (n - 1) as int);
            lemma_piece_chars_take(ls, i as int);
            assert(ls.take(i + 1).drop_last() =~= ls.take(i as int));
            assert(ls.take(i + 1).last() == ls[i as int]);
            assert(piece_chars(ls.take(i + 1)) <= piece_chars(ls.take(n - 1))) by {
                lemma_piece_chars_mono(ls, i + 1, n - 1);
            }
        }
        visual_row = visual_row + wrapped.len();
        i += 1;
    }
    assert(ls.take(i as int) =~= ls.drop_last());
    let wrapped = wrap_str(pieces[i].as_str(), wrap_width);
    proof {
        lemma_wrap_count(ls[i as int], wrap_width as int);
        lemma_piece_chars_take(ls, i as int);
    }
    let row = visual_row + (wrapped.len() - 1);
    let last_chars = chars_of(wrapped[wrapped.len() - 1].as_str());
    let ghost last = last_chars@;
    proof {
        if wrap_width > 0 {
            law_wrap_lines_fit(ls.last(), wrap_width as int);
        }
        assert(last == wrap_spec(ls.last(), wrap_width as int).last());
    }
    let mut col: usize = 0;
    let mut j: usize = 0;
    assert(last.take(0) =~= Seq::<char>::empty());
    while j < last_chars.len()
        invariant
            j <= last_chars.len(),
            last == last_chars@,
            col == display_width(last.take(j as int)),
            wrap_width > 0 ==> line_fits(last, wrap_width as int),
            wrap_width == 0 ==> display_width(last) <= usize::MAX,
        decreases last_chars.len() - j,
    {
        let cw = columns_of(last_chars[j]);
        proof {
            lemma_display_width_step(last, j as int);
            lemma_display_width_mono(last, j + 1, last.len() as int);
            assert(last.take(last.len() as int) =~= last);
        }
        col = col + cw;
        j += 1;
    }
    assert(last.take(last.len() as int) =~= last);
    (row, col)
}

proof fn lemma_piece_chars_mono(ls: Seq<Seq<char>>, i: int, j: int)
    requires
        0 <= i <= j <= ls.len(),
    ensures
        piece_chars(ls.take(i)) <= piece_chars(ls.take(j)),
    decreases j - i,
{
    if i < j {
        lemma_piece_chars_take(ls, j - 1);
        lemma_piece_chars_mono(ls, i, j - 1);
    }
}


/// `cursor_visual_position` when its column can be counted in a `usize`, else `None`
/// (possible only with a wrap width of 0).
pub fn cursor_visual_position_checked(buffer: &str, cursor: usize, wrap_width: usize) -> (r: Option<
    (usize, usize),
>)
    requires
        cursor_ok(buffer@, cursor as int),
    ensures
        cursor_col_fits(buffer@, cursor as int, wrap_width as int) ==> (r matches Some(p) && (
        p.0 as int, p.1 as int) == cursor_spec(cursor_text(buffer@, cursor as int), wrap_width as int)),
        !cursor_col_fits(buffer@, cursor as int, wrap_width as int) ==> r is None,
{
    if wrap_width > 0 {
        return Some(cursor_visual_position(buffer, cursor, wrap_width));
    }
    let cs = chars_of(buffer);
    let total = byte_len(buffer);
    let c = if cursor < total {
        cursor
    } else {
        total
    };
    proof {
        if c == total {
            crate::text::lemma_take_full(cs@);
            crate::text::lemma_char_index_at(cs@, cs@.len() as int);
        }
    }
    let k = char_index_of_byte(&cs, c);
    let pieces = split_newlines(&cs, k);
    proof {
        lemma_split_lines(cs@.take(k as int));
    }
    let last = chars_of(pieces[pieces.len() - 1].as_str());
    let mut sum: u128 = 0;
    let mut j: usize = 0;
    assert(last@.take(0) =~= Seq::<char>::empty());
    while j < last.len()
        invariant
            j <= last.len(),
            sum == display_width(last@.take(j as int)),
            sum <= 3 * j,
        decreases last.len() - j,
    {
        let cw = columns_of(last[j]);
        proof {
            lemma_display_width_step(last@, j as int);
        }
        sum = sum + cw as u128;
        j += 1;
    }
    assert(last@.take(last.len() as int) =~= last@);
    if sum <= usize::MAX as u128 {
        Some(cursor_visual_position(buffer, cursor, wrap_width))
    } else {
        None
    }
}

} // verus!

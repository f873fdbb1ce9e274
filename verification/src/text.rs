use vstd::prelude::*;
use vstd::utf8::*;
use vstd::string::StringSliceAdditionalSpecFns;

verus! {

/// Number of bytes in the UTF-8 encoding of `c`.
pub open spec fn char_len_utf8(c: char) -> nat {
    if (c as u32) < 0x80 {
        1
    } else if (c as u32) < 0x800 {
        2
    } else if (c as u32) < 0x10000 {
        3
    } else {
        4
    }
}

/// Number of bytes in the UTF-8 encoding of a character sequence.
pub open spec fn utf8_len(cs: Seq<char>) -> nat
    decreases cs.len(),
{
    if cs.len() == 0 {
        0
    } else {
        utf8_len(cs.drop_last()) + char_len_utf8(cs.last())
    }
}

/// The byte length of an encoded character agrees with vstd's UTF-8 encoder.
pub proof fn lemma_encode_scalar_len(c: char)
    ensures
        encode_scalar(c as u32).len() == char_len_utf8(c),
{
    char_is_scalar(c);
}

/// `utf8_len` distributes over concatenation.
pub proof fn lemma_utf8_len_concat(a: Seq<char>, b: Seq<char>)
    ensures
        utf8_len(a + b) == utf8_len(a) + utf8_len(b),
    decreases b.len(),
{
    if b.len() == 0 {
        assert(a + b =~= a);
    } else {
        lemma_utf8_len_concat(a, b.drop_last());
        assert((a + b).drop_last() =~= a + b.drop_last());
    }
}

/// Only the empty sequence has no bytes.
pub proof fn lemma_utf8_len_zero(cs: Seq<char>)
    ensures
        utf8_len(cs) == 0 <==> cs.len() == 0,
{
    if cs.len() > 0 {
        assert(utf8_len(cs) >= char_len_utf8(cs.last()));
    }
}

/// The length of vstd's UTF-8 encoding is `utf8_len`.
pub proof fn lemma_encode_utf8_len(cs: Seq<char>)
    ensures
        encode_utf8(cs).len() == utf8_len(cs),
    decreases cs.len(),
{
    if cs.len() > 0 {
        lemma_encode_utf8_len(cs.drop_first());
        lemma_encode_scalar_len(cs[0]);
        assert(cs =~= seq![cs[0]] + cs.drop_first());
        lemma_utf8_len_concat(seq![cs[0]], cs.drop_first());
        assert(seq![cs[0]].drop_last() =~= Seq::<char>::empty());
        assert(utf8_len(Seq::<char>::empty()) == 0);
        assert(utf8_len(seq![cs[0]]) == char_len_utf8(cs[0]));
        assert(encode_utf8(cs) == encode_scalar(cs[0] as u32) + encode_utf8(cs.drop_first()));
    }
}

/// Byte length of `c` in UTF-8.
pub fn char_utf8_len(c: char) -> (n: usize)
    ensures
        n == char_len_utf8(c),
{
    let v = c as u32;
    if v < 0x80 {
        1
    } else if v < 0x800 {
        2
    } else if v < 0x10000 {
        3
    } else {
        4
    }
}

/// The characters of `s`, in order.
pub fn chars_of(s: &str) -> (v: Vec<char>)
    ensures
        v@ == s@,
{
    let mut v: Vec<char> = Vec::new();
    for c in it: s.chars()
        invariant
            it.seq() == s@,
            v@ == s@.take(it.index() as int),
    {
        assert(s@.take(it.index() + 1) =~= v@.push(c));
        v.push(c);
    }
    assert(v@ =~= s@);
    v
}


/// Extending a prefix by one character adds that character's byte length.
pub proof fn lemma_utf8_len_take_step(cs: Seq<char>, i: int)
    requires
        0 <= i < cs.len(),
    ensures
        utf8_len(cs.take(i + 1)) == utf8_len(cs.take(i)) + char_len_utf8(cs[i]),
{
    assert(cs.take(i + 1).drop_last() =~= cs.take(i));
}

/// Byte offsets of longer prefixes are strictly larger.
pub proof fn lemma_utf8_len_take_strict(cs: Seq<char>, i: int, j: int)
    requires
        0 <= i < j <= cs.len(),
    ensures
        utf8_len(cs.take(i)) < utf8_len(cs.take(j)),
    decreases j - i,
{
    lemma_utf8_len_take_step(cs, j - 1);
    if i < j - 1 {
        lemma_utf8_len_take_strict(cs, i, j - 1);
    }
}

/// Byte offsets of prefixes never decrease.
pub proof fn lemma_utf8_len_take_mono(cs: Seq<char>, i: int, j: int)
    requires
        0 <= i <= j <= cs.len(),
    ensures
        utf8_len(cs.take(i)) <= utf8_len(cs.take(j)),
{
    if i < j {
        lemma_utf8_len_take_strict(cs, i, j);
    }
}

/// The whole sequence is its own longest prefix.
pub proof fn lemma_take_full(cs: Seq<char>)
    ensures
        cs.take(cs.len() as int) == cs,
{
    assert(cs.take(cs.len() as int) =~= cs);
}

/// `b` is the byte offset at which some character of `cs` starts, or the end of `cs`.
pub open spec fn is_char_boundary_at(cs: Seq<char>, b: int) -> bool {
    exists|k: int| 0 <= k <= cs.len() && #[trigger] utf8_len(cs.take(k)) == b
}

/// The number of characters that precede byte offset `b` (meaningful when `b` is a boundary).
pub open spec fn char_index_at(cs: Seq<char>, b: int) -> int {
    choose|k: int| 0 <= k <= cs.len() && #[trigger] utf8_len(cs.take(k)) == b
}

/// A boundary byte offset determines its character index uniquely.
pub proof fn lemma_char_index_at(cs: Seq<char>, k: int)
    requires
        0 <= k <= cs.len(),
    ensures
        is_char_boundary_at(cs, utf8_len(cs.take(k)) as int),
        char_index_at(cs, utf8_len(cs.take(k)) as int) == k,
{
    let b = utf8_len(cs.take(k)) as int;
    assert(0 <= k <= cs.len() && utf8_len(cs.take(k)) == b);
    let j = char_index_at(cs, b);
    if j < k {
        lemma_utf8_len_take_strict(cs, j, k);
    } else if k < j {
        lemma_utf8_len_take_strict(cs, k, j);
    }
}

/// The byte length of a string slice, as vstd states it, is `utf8_len` of its characters.
pub proof fn lemma_str_len(s: &str)
    ensures
        s.spec_bytes().len() == utf8_len(s@),
{
    lemma_encode_utf8_len(s@);
}

/// Appends `c` to `s`.
#[verifier::external_body]
pub(crate) fn push_char(s: &mut String, c: char)
    ensures
        final(s)@ == old(s)@.push(c),
{
    s.push(c);
}

/// A `String` holding `cs[lo..hi]`.
pub fn string_from_chars(cs: &Vec<char>, lo: usize, hi: usize) -> (r: String)
    requires
        lo <= hi <= cs.len(),
    ensures
        r@ == cs@.subrange(lo as int, hi as int),
{
    let mut r = String::new();
    let mut i = lo;
    while i < hi
        invariant
            lo <= i <= hi <= cs.len(),
            r@ == cs@.subrange(lo as int, i as int),
        decreases hi - i,
    {
        assert(cs@.subrange(lo as int, i + 1) =~= r@.push(cs@[i as int]));
        push_char(&mut r, cs[i]);
        i += 1;
    }
    r
}

/// The character index at which byte offset `b` lies, for a boundary `b`.
pub fn char_index_of_byte(cs: &Vec<char>, b: usize) -> (k: usize)
    requires
        is_char_boundary_at(cs@, b as int),
    ensures
        k == char_index_at(cs@, b as int),
        k <= cs.len(),
        utf8_len(cs@.take(k as int)) == b,
{
    let ghost target = char_index_at(cs@, b as int);
    let mut i: usize = 0;
    let mut acc: usize = 0;
    while acc < b
        invariant
            0 <= target <= cs.len(),
            utf8_len(cs@.take(target)) == b,
            i <= target,
            acc == utf8_len(cs@.take(i as int)),
        decreases target - i,
    {
        proof {
            if i == target {
                assert(false);
            }
            lemma_utf8_len_take_step(cs@, i as int);
            lemma_utf8_len_take_mono(cs@, i + 1, target);
        }
        acc = acc + char_utf8_len(cs[i]);
        i = i + 1;
    }
    proof {
        if i < target {
            lemma_utf8_len_take_strict(cs@, i as int, target);
        }
        lemma_char_index_at(cs@, i as int);
    }
    i
}


/// The byte length of `s`, which always fits in a `usize`.
pub fn byte_len(s: &str) -> (n: usize)
    ensures
        n == utf8_len(s@),
{
    broadcast use vstd::slice::group_slice_axioms;

    let n = s.as_bytes().len();
    proof {
        lemma_str_len(s);
    }
    n
}

/// `offs[i]` is the byte offset at which character `i` of `cs` starts (`offs[cs.len()]` is the end).
pub fn prefix_offsets(cs: &Vec<char>, total: usize) -> (offs: Vec<usize>)
    requires
        utf8_len(cs@) == total,
    ensures
        offs.len() == cs.len() + 1,
        forall|i: int| 0 <= i <= cs.len() ==> #[trigger] offs@[i] == utf8_len(cs@.take(i)),
{
    let mut offs: Vec<usize> = Vec::new();
    offs.push(0);
    let mut acc: usize = 0;
    let mut i: usize = 0;
    assert(cs@.take(0) =~= Seq::<char>::empty());
    proof {
        lemma_take_full(cs@);
    }
    while i < cs.len()
        invariant
            i <= cs.len(),
            utf8_len(cs@) == total,
            cs@.take(cs.len() as int) == cs@,
            offs.len() == i + 1,
            acc == utf8_len(cs@.take(i as int)),
            forall|j: int| 0 <= j <= i ==> #[trigger] offs@[j] == utf8_len(cs@.take(j)),
        decreases cs.len() - i,
    {
        proof {
            lemma_utf8_len_take_step(cs@, i as int);
            lemma_utf8_len_take_mono(cs@, i + 1, cs.len() as int);
        }
        acc = acc + char_utf8_len(cs[i]);
        offs.push(acc);
        i = i + 1;
    }
    offs
}

/// The Unicode `White_Space` property, which `char::is_whitespace` tests.
pub open spec fn is_white_space(c: char) -> bool {
    let v = c as u32;
    ||| 0x09 <= v <= 0x0D
    ||| v == 0x20
    ||| v == 0x85
    ||| v == 0xA0
    ||| v == 0x1680
    ||| 0x2000 <= v <= 0x200A
    ||| v == 0x2028
    ||| v == 0x2029
    ||| v == 0x202F
    ||| v == 0x205F
    ||| v == 0x3000
}

/// The Unicode general category `Cc`, which `char::is_control` tests.
pub open spec fn is_control_char(c: char) -> bool {
    let v = c as u32;
    v <= 0x1F || 0x7F <= v <= 0x9F
}

/// Whether `c` has the Unicode `White_Space` property.
pub fn is_whitespace(c: char) -> (b: bool)
    ensures
        b == is_white_space(c),
{
    let v = c as u32;
    (0x09 <= v && v <= 0x0D) || v == 0x20 || v == 0x85 || v == 0xA0 || v == 0x1680 || (0x2000
        <= v && v <= 0x200A) || v == 0x2028 || v == 0x2029 || v == 0x202F || v == 0x205F || v
        == 0x3000
}

/// Whether `c` is a control character (general category `Cc`).
pub fn is_control(c: char) -> (b: bool)
    ensures
        b == is_control_char(c),
{
    let v = c as u32;
    v <= 0x1F || (0x7F <= v && v <= 0x9F)
}


/// The first index at or after `i` that is not white space (or the end).
pub open spec fn skip_white(s: Seq<char>, i: int) -> int
    decreases s.len() - i,
{
    if i < 0 || i >= s.len() || !is_white_space(s[i]) {
        i
    } else {
        skip_white(s, i + 1)
    }
}

/// The end of `s[lo..j]` with trailing white space removed.
pub open spec fn trim_end_at(s: Seq<char>, lo: int, j: int) -> int
    decreases j - lo,
{
    if j <= lo || !is_white_space(s[j - 1]) {
        j
    } else {
        trim_end_at(s, lo, j - 1)
    }
}

/// `s` without leading and trailing white space, as `str::trim` gives it.
pub open spec fn trim_spec(s: Seq<char>) -> Seq<char> {
    let a = skip_white(s, 0);
    s.subrange(a, trim_end_at(s, a, s.len() as int))
}

proof fn lemma_skip_white(s: Seq<char>, i: int)
    requires
        0 <= i <= s.len(),
    ensures
        i <= skip_white(s, i) <= s.len(),
    decreases s.len() - i,
{
    if i < s.len() && is_white_space(s[i]) {
        lemma_skip_white(s, i + 1);
    }
}

proof fn lemma_trim_end_at(s: Seq<char>, lo: int, j: int)
    requires
        lo <= j,
    ensures
        lo <= trim_end_at(s, lo, j) <= j,
    decreases j - lo,
{
    if !(j <= lo || !is_white_space(s[j - 1])) {
        lemma_trim_end_at(s, lo, j - 1);
    }
}

/// `s` without leading and trailing white space.
pub fn trim(s: &str) -> (r: String)
    ensures
        r@ == trim_spec(s@),
{
    let cs = chars_of(s);
    let mut a: usize = 0;
    while a < cs.len() && is_whitespace(cs[a])
        invariant
            a <= cs.len(),
            skip_white(cs@, a as int) == skip_white(cs@, 0),
        decreases cs.len() - a,
    {
        a += 1;
    }
    let mut b: usize = cs.len();
    proof {
        lemma_skip_white(cs@, 0);
    }
    while b > a && is_whitespace(cs[b - 1])
        invariant
            a <= b <= cs.len(),
            trim_end_at(cs@, a as int, b as int) == trim_end_at(cs@, a as int, cs.len() as int),
        decreases b - a,
    {
        b -= 1;
    }
    string_from_chars(&cs, a, b)
}

} // verus!

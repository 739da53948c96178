//! Small verified text utilities: decimal rendering of integers, whitespace
//! classification, splitting a line into words, and trimming. These back the
//! client's command parsing and the naming of received payloads.

use vstd::prelude::*;

verus! {

/// The character for one decimal digit value.
pub open spec fn spec_digit_char(d: int) -> char
    recommends
        0 <= d <= 9,
{
    if d == 0 {
        '0'
    } else if d == 1 {
        '1'
    } else if d == 2 {
        '2'
    } else if d == 3 {
        '3'
    } else if d == 4 {
        '4'
    } else if d == 5 {
        '5'
    } else if d == 6 {
        '6'
    } else if d == 7 {
        '7'
    } else if d == 8 {
        '8'
    } else {
        '9'
    }
}

/// The decimal rendering of a number, most significant digit first.
pub open spec fn spec_decimal(n: nat) -> Seq<char>
    decreases n,
{
    if n < 10 {
        seq![spec_digit_char(n as int)]
    } else {
        spec_decimal(n / 10) + seq![spec_digit_char((n % 10) as int)]
    }
}

/// One decimal digit as a string slice.
fn digit_to_str(d: u64) -> (r: &'static str)
    requires
        d < 10,
    ensures
        r@ == seq![spec_digit_char(d as int)],
{
    proof {
        reveal_strlit("0");
        reveal_strlit("1");
        reveal_strlit("2");
        reveal_strlit("3");
        reveal_strlit("4");
        reveal_strlit("5");
        reveal_strlit("6");
        reveal_strlit("7");
        reveal_strlit("8");
        reveal_strlit("9");
    }
    let r: &'static str = if d == 0 {
        "0"
    } else if d == 1 {
        "1"
    } else if d == 2 {
        "2"
    } else if d == 3 {
        "3"
    } else if d == 4 {
        "4"
    } else if d == 5 {
        "5"
    } else if d == 6 {
        "6"
    } else if d == 7 {
        "7"
    } else if d == 8 {
        "8"
    } else {
        "9"
    };
    proof {
        assert(r@ =~= seq![spec_digit_char(d as int)]);
    }
    r
}

/// Whitespace, by Unicode's White_Space property: what a line is split and
/// trimmed on.
pub open spec fn is_space(c: char) -> bool {
    c == ' ' || c == '\t' || c == '\n' || c == '\r' || c == '\u{b}' || c == '\u{c}' || c
        == '\u{85}' || c == '\u{a0}' || c == '\u{1680}' || c == '\u{2000}' || c == '\u{2001}' || c
        == '\u{2002}' || c == '\u{2003}' || c == '\u{2004}' || c == '\u{2005}' || c == '\u{2006}'
        || c == '\u{2007}' || c == '\u{2008}' || c == '\u{2009}' || c == '\u{200a}' || c
        == '\u{2028}' || c == '\u{2029}' || c == '\u{202f}' || c == '\u{205f}' || c == '\u{3000}'
}

/// Decides whitespace for one character.
pub fn is_space_char(c: char) -> (r: bool)
    ensures
        r == is_space(c),
{
    c == ' ' || c == '\t' || c == '\n' || c == '\r' || c == '\u{b}' || c == '\u{c}' || c
        == '\u{85}' || c == '\u{a0}' || c == '\u{1680}' || c == '\u{2000}' || c == '\u{2001}' || c
        == '\u{2002}' || c == '\u{2003}' || c == '\u{2004}' || c == '\u{2005}' || c == '\u{2006}'
        || c == '\u{2007}' || c == '\u{2008}' || c == '\u{2009}' || c == '\u{200a}' || c
        == '\u{2028}' || c == '\u{2029}' || c == '\u{202f}' || c == '\u{205f}' || c == '\u{3000}'
}

/// Length of the leading run of non-space characters.
pub open spec fn spec_word_len(s: Seq<char>) -> int
    decreases s.len(),
{
    if s.len() == 0 || is_space(s[0]) {
        0
    } else {
        1 + spec_word_len(s.drop_first())
    }
}

/// The leading word run is within bounds, holds no space, and ends at a space
/// or at the end.
pub proof fn lemma_word_len(s: Seq<char>)
    ensures
        0 <= spec_word_len(s) <= s.len(),
        forall|j: int| 0 <= j < spec_word_len(s) ==> !is_space(s[j]),
        spec_word_len(s) < s.len() ==> is_space(s[spec_word_len(s)]),
    decreases s.len(),
{
    if s.len() == 0 || is_space(s[0]) {
    } else {
        lemma_word_len(s.drop_first());
        assert forall|j: int| 0 <= j < spec_word_len(s) implies !is_space(s[j]) by {
            if j > 0 {
                assert(s.drop_first()[j - 1] == s[j]);
            }
        }
        if spec_word_len(s) < s.len() {
            assert(s.drop_first()[spec_word_len(s) - 1] == s[spec_word_len(s)]);
        }
    }
}

/// The words of a line: its maximal runs of non-space characters, in order.
pub open spec fn spec_words(s: Seq<char>) -> Seq<Seq<char>>
    decreases s.len(),
    via spec_words_decreases
{
    if s.len() == 0 {
        seq![]
    } else if is_space(s[0]) {
        spec_words(s.drop_first())
    } else {
        seq![s.take(spec_word_len(s))] + spec_words(s.skip(spec_word_len(s)))
    }
}

#[via_fn]
proof fn spec_words_decreases(s: Seq<char>) {
    lemma_word_len(s);
}

/// Splits a line into its words: the maximal runs of non-space characters,
/// in order.
pub fn split_words(s: &str) -> (r: Vec<String>)
    ensures
        r.deep_view() == spec_words(s@),
{
    let n = s.unicode_len();
    let mut r: Vec<String> = Vec::new();
    let mut i: usize = 0;
    proof {
        assert(s@.skip(0) =~= s@);
        assert(r.deep_view() =~= Seq::<Seq<char>>::empty());
        assert(Seq::<Seq<char>>::empty() + spec_words(s@) =~= spec_words(s@));
    }
    while i < n
        invariant
            n == s@.len(),
            i <= n,
            r.deep_view() + spec_words(s@.skip(i as int)) == spec_words(s@),
        decreases n - i,
    {
        let c = s.get_char(i);
        if is_space_char(c) {
            proof {
                assert(s@.skip(i as int).drop_first() =~= s@.skip(i + 1));
            }
            i += 1;
        } else {
            let start = i;
            let mut j = i + 1;
            while j < n && !is_space_char(s.get_char(j))
                invariant
                    n == s@.len(),
                    start < j <= n,
                    forall|k: int| start <= k < j ==> !is_space(s@[k]),
                decreases n - j,
            {
                j += 1;
            }
            proof {
                assert(j == n || is_space(s@[j as int]));
                let tail = s@.skip(start as int);
                lemma_word_len(tail);
                let wl = spec_word_len(tail);
                assert forall|k: int| 0 <= k < j - start implies !is_space(tail[k]) by {
                    assert(tail[k] == s@[start + k]);
                }
                if wl < j - start {
                    assert(!is_space(tail[wl]));
                }
                if wl > j - start {
                    assert(j < n ==> is_space(s@[j as int]));
                    assert(j - start < tail.len());
                    assert(j < n);
                    assert(tail[j - start] == s@[j as int]);
                }
                assert(wl == j - start);
                assert(tail.take(wl) =~= s@.subrange(start as int, j as int));
                assert(tail.skip(wl) =~= s@.skip(j as int));
            }
            let word = s.substring_char(start, j).to_owned();
            let ghost before = r.deep_view();
            r.push(word);
            proof {
                assert(r.deep_view() =~= before + seq![word@]);
                assert(before + seq![word@] + spec_words(s@.skip(j as int)) =~= before + (
                seq![word@] + spec_words(s@.skip(j as int))));
            }
            i = j;
        }
    }
    proof {
        assert(s@.skip(n as int) =~= Seq::<char>::empty());
        assert(r.deep_view() + spec_words(s@.skip(n as int)) =~= r.deep_view());
    }
    r
}

/// A line with its leading spaces dropped.
pub open spec fn spec_trim_start(s: Seq<char>) -> Seq<char>
    decreases s.len(),
{
    if s.len() > 0 && is_space(s[0]) {
        spec_trim_start(s.drop_first())
    } else {
        s
    }
}

/// A line with its trailing spaces dropped.
pub open spec fn spec_trim_end(s: Seq<char>) -> Seq<char>
    decreases s.len(),
{
    if s.len() > 0 && is_space(s.last()) {
        spec_trim_end(s.drop_last())
    } else {
        s
    }
}

/// A line with leading and trailing spaces dropped.
pub open spec fn spec_trim(s: Seq<char>) -> Seq<char> {
    spec_trim_end(spec_trim_start(s))
}

/// A trimmed line is empty or begins with a non-space character.
pub proof fn lemma_trim_head(s: Seq<char>)
    ensures
        spec_trim(s).len() > 0 ==> !is_space(spec_trim(s)[0]),
        spec_trim(s).len() > 0 ==> spec_trim(s)[0] == spec_trim_start(s)[0],
    decreases s.len(),
{
    lemma_trim_start_head(s);
    lemma_trim_end_head(spec_trim_start(s));
}

proof fn lemma_trim_start_head(s: Seq<char>)
    ensures
        spec_trim_start(s).len() > 0 ==> !is_space(spec_trim_start(s)[0]),
    decreases s.len(),
{
    if s.len() > 0 && is_space(s[0]) {
        lemma_trim_start_head(s.drop_first());
    }
}

proof fn lemma_trim_end_head(s: Seq<char>)
    ensures
        spec_trim_end(s).len() > 0 ==> spec_trim_end(s)[0] == s[0] && s.len() > 0,
    decreases s.len(),
{
    if s.len() > 0 && is_space(s.last()) {
        lemma_trim_end_head(s.drop_last());
    }
}

/// Drops leading and trailing whitespace from a line.
pub fn trim(s: &str) -> (r: String)
    ensures
        r@ == spec_trim(s@),
{
    let n = s.unicode_len();
    let mut i: usize = 0;
    proof {
        assert(s@.skip(0) =~= s@);
    }
    while i < n && is_space_char(s.get_char(i))
        invariant
            n == s@.len(),
            i <= n,
            spec_trim_start(s@) == spec_trim_start(s@.skip(i as int)),
        decreases n - i,
    {
        proof {
            assert(s@.skip(i as int).drop_first() =~= s@.skip(i + 1));
        }
        i += 1;
    }
    let ghost t = s@.skip(i as int);
    proof {
        if i < n {
            assert(t[0] == s@[i as int]);
        }
        assert(spec_trim_start(t) == t);
    }
    let mut j = n;
    proof {
        assert(t.take(n - i) =~= t);
    }
    while j > i && is_space_char(s.get_char(j - 1))
        invariant
            n == s@.len(),
            i <= j <= n,
            t == s@.skip(i as int),
            spec_trim_end(t) == spec_trim_end(t.take(j - i)),
        decreases j,
    {
        proof {
            assert(t.take(j - i).last() == s@[j - 1]);
            assert(t.take(j - i).drop_last() =~= t.take(j - 1 - i));
        }
        j -= 1;
    }
    proof {
        let u = t.take(j - i);
        if j > i {
            assert(u.last() == s@[j - 1]);
        }
        assert(spec_trim_end(u) == u);
        assert(u =~= s@.subrange(i as int, j as int));
    }
    s.substring_char(i, j).to_owned()
}

/// Compares two string slices by their characters.
pub fn str_eq(a: &str, b: &str) -> (r: bool)
    ensures
        r == (a@ == b@),
{
    let x = a.to_owned();
    let y = b.to_owned();
    x == y
}

/// The position right after the last path separator; the file name starts
/// there.
pub open spec fn spec_file_name_start(s: Seq<char>) -> int
    decreases s.len(),
{
    if s.len() == 0 {
        0
    } else if s.last() == '/' {
        s.len() as int
    } else {
        spec_file_name_start(s.drop_last())
    }
}

proof fn lemma_file_name_start_bounds(s: Seq<char>)
    ensures
        0 <= spec_file_name_start(s) <= s.len(),
    decreases s.len(),
{
    if s.len() > 0 && s.last() != '/' {
        lemma_file_name_start_bounds(s.drop_last());
    }
}

/// The position of the last dot, or -1 when there is none.
pub open spec fn spec_last_dot(s: Seq<char>) -> int
    decreases s.len(),
{
    if s.len() == 0 {
        -1
    } else if s.last() == '.' {
        s.len() - 1
    } else {
        spec_last_dot(s.drop_last())
    }
}

proof fn lemma_last_dot_bounds(s: Seq<char>)
    ensures
        -1 <= spec_last_dot(s) < s.len(),
    decreases s.len(),
{
    if s.len() > 0 && s.last() != '.' {
        lemma_last_dot_bounds(s.drop_last());
    }
}

/// The file-name part of a path: what follows the last separator.
pub open spec fn spec_file_name(p: Seq<char>) -> Seq<char> {
    p.skip(spec_file_name_start(p))
}

/// The stem and extension of a path's file name, split at the file name's
/// last dot. `None` when the file name is empty, has no dot, or starts with
/// its only dot.
pub open spec fn spec_stem_ext(p: Seq<char>) -> Option<(Seq<char>, Seq<char>)> {
    let name = spec_file_name(p);
    let d = spec_last_dot(name);
    if name.len() == 0 || d <= 0 {
        None
    } else {
        Some((name.take(d), name.skip(d + 1)))
    }
}

/// Whether a path carries a file name at all: it is nonempty and does not
/// end at a separator.
pub fn has_file_name(p: &str) -> (r: bool)
    ensures
        r == (spec_file_name(p@).len() > 0),
{
    let n = p.unicode_len();
    proof {
        lemma_file_name_start_bounds(p@);
    }
    if n == 0 {
        return false;
    }
    let c = p.get_char(n - 1);
    proof {
        if c != '/' {
            lemma_file_name_start_bounds(p@.drop_last());
        }
    }
    c != '/'
}

/// Splits a path into the stem and extension of its file name.
pub fn split_stem_ext(p: &str) -> (r: Option<(String, String)>)
    ensures
        match r {
            Some(se) => spec_stem_ext(p@) == Some((se.0@, se.1@)),
            None => spec_stem_ext(p@) is None,
        },
{
    let n = p.unicode_len();
    proof {
        lemma_file_name_start_bounds(p@);
        assert(p@.take(n as int) =~= p@);
    }
    let mut b = n;
    while b > 0 && p.get_char(b - 1) != '/'
        invariant
            n == p@.len(),
            b <= n,
            spec_file_name_start(p@) == spec_file_name_start(p@.take(b as int)),
        decreases b,
    {
        proof {
            assert(p@.take(b as int).last() == p@[b - 1]);
            assert(p@.take(b as int).drop_last() =~= p@.take(b - 1));
        }
        b -= 1;
    }
    proof {
        if b > 0 {
            assert(p@.take(b as int).last() == p@[b - 1]);
        }
        assert(spec_file_name_start(p@) == b as int);
        assert(spec_file_name(p@) =~= p@.skip(b as int));
    }
    let ghost name = spec_file_name(p@);
    if b == n {
        proof {
            assert(name.len() == 0);
        }
        return None;
    }
    proof {
        lemma_last_dot_bounds(name);
        assert(name.take(n - b) =~= name);
    }
    let mut j = n;
    while j > b && p.get_char(j - 1) != '.'
        invariant
            n == p@.len(),
            b <= j <= n,
            name == p@.skip(b as int),
            spec_last_dot(name) == spec_last_dot(name.take(j - b)),
        decreases j,
    {
        proof {
            assert(name.take(j - b).last() == p@[j - 1]);
            assert(name.take(j - b).drop_last() =~= name.take(j - 1 - b));
        }
        j -= 1;
    }
    proof {
        if j > b {
            assert(name.take(j - b).last() == p@[j - 1]);
            assert(spec_last_dot(name.take(j - b)) == j - b - 1);
        } else {
            assert(name.take(0) =~= Seq::<char>::empty());
        }
    }
    if j <= b + 1 {
        return None;
    }
    let stem = p.substring_char(b, j - 1).to_owned();
    let ext = p.substring_char(j, n).to_owned();
    proof {
        let d = spec_last_dot(name);
        assert(d == j - b - 1);
        assert(name.take(d) =~= p@.subrange(b as int, j - 1));
        assert(name.skip(d + 1) =~= p@.subrange(j as int, n as int));
    }
    Some((stem, ext))
}

/// Renders a number in decimal, most significant digit first.
pub fn u64_to_decimal(n: u64) -> (r: String)
    ensures
        r@ == spec_decimal(n as nat),
    decreases n,
{
    if n < 10 {
        digit_to_str(n).to_owned()
    } else {
        let mut s = u64_to_decimal(n / 10);
        s.append(digit_to_str(n % 10));
        s
    }
}

} // verus!

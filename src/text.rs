//! Character classes, comparisons, and the text normalisation that turns
//! recognised screen text into comparable slugs.
use vstd::prelude::*;

use crate::pool::views;

verus! {

/// Whether `s` begins with `prefix`.
pub open spec fn has_prefix(s: Seq<char>, prefix: Seq<char>) -> bool {
    prefix.len() <= s.len() && s.subrange(0, prefix.len() as int) == prefix
}

/// Whether `s` begins with `prefix`.
pub fn starts_with(s: &str, prefix: &str) -> (r: bool)
    ensures
        r == has_prefix(s@, prefix@),
{
    let n = prefix.unicode_len();
    if n > s.unicode_len() {
        return false;
    }
    let mut i: usize = 0;
    while i < n
        invariant
            n == prefix@.len(),
            n <= s@.len(),
            i <= n,
            s@.subrange(0, i as int) == prefix@.subrange(0, i as int),
        decreases n - i,
    {
        if s.get_char(i) != prefix.get_char(i) {
            assert(s@.subrange(0, n as int)[i as int] != prefix@[i as int]);
            return false;
        }
        assert(s@.subrange(0, i + 1) =~= s@.subrange(0, i as int).push(s@[i as int]));
        assert(prefix@.subrange(0, i + 1) =~= prefix@.subrange(0, i as int).push(prefix@[i as int]));
        i = i + 1;
    }
    assert(prefix@ =~= prefix@.subrange(0, n as int));
    true
}

/// Whether `a` and `b` hold the same characters.
pub fn str_eq(a: &str, b: &str) -> (r: bool)
    ensures
        r == (a@ == b@),
{
    if a.unicode_len() != b.unicode_len() {
        return false;
    }
    let r = starts_with(a, b);
    assert(a@.subrange(0, b@.len() as int) =~= a@);
    r
}

/// Relies on String::push: it appends one character.
#[verifier::external_body]
pub(crate) fn push_char(s: &mut String, c: char)
    ensures
        final(s)@ == old(s)@.push(c),
{
    s.push(c)
}

/// The characters of `s`, one by one.
pub fn chars_of(s: &str) -> (r: Vec<char>)
    ensures
        r@ == s@,
{
    let n = s.unicode_len();
    let mut out: Vec<char> = Vec::new();
    let mut i: usize = 0;
    while i < n
        invariant
            n == s@.len(),
            i <= n,
            out@ == s@.subrange(0, i as int),
        decreases n - i,
    {
        out.push(s.get_char(i));
        i = i + 1;
    }
    assert(out@ =~= s@);
    out
}

/// Unicode `White_Space`, the class that `char::is_whitespace` tests.
pub open spec fn is_white_space(c: char) -> bool {
    ||| ('\t' <= c && c <= '\r')
    ||| c == ' '
    ||| c == '\u{85}'
    ||| c == '\u{a0}'
    ||| c == '\u{1680}'
    ||| ('\u{2000}' <= c && c <= '\u{200a}')
    ||| c == '\u{2028}'
    ||| c == '\u{2029}'
    ||| c == '\u{202f}'
    ||| c == '\u{205f}'
    ||| c == '\u{3000}'
}

pub fn white_space(c: char) -> (r: bool)
    ensures
        r == is_white_space(c),
{
    ('\t' <= c && c <= '\r') || c == ' ' || c == '\u{85}' || c == '\u{a0}' || c == '\u{1680}' || (
    '\u{2000}' <= c && c <= '\u{200a}') || c == '\u{2028}' || c == '\u{2029}' || c == '\u{202f}'
        || c == '\u{205f}' || c == '\u{3000}'
}

pub open spec fn is_ascii_upper(c: char) -> bool {
    'A' <= c && c <= 'Z'
}

pub open spec fn is_ascii_alnum(c: char) -> bool {
    ('0' <= c && c <= '9') || ('a' <= c && c <= 'z') || is_ascii_upper(c)
}

/// The ASCII punctuation characters: `!` to `/`, `:` to `@`, `[` to `` ` ``,
/// `{` to `~`.
pub open spec fn is_ascii_punct(c: char) -> bool {
    ('!' <= c && c <= '/') || (':' <= c && c <= '@') || ('[' <= c && c <= '`') || ('{' <= c && c
        <= '~')
}

/// `c` with an ASCII capital letter turned into its small letter.
pub open spec fn ascii_lower(c: char) -> char {
    if is_ascii_upper(c) {
        ((c as u32) + 32) as char
    } else {
        c
    }
}

/// What a character becomes in a slug: ASCII letters and digits stay (in
/// lower case), whitespace and ASCII punctuation become a space, anything
/// else is dropped.
pub open spec fn slug_char(c: char) -> Option<char> {
    if is_ascii_alnum(c) {
        Some(ascii_lower(c))
    } else if is_white_space(c) || is_ascii_punct(c) {
        Some(' ')
    } else {
        None
    }
}

fn slug_char_exec(c: char) -> (r: Option<char>)
    ensures
        r == slug_char(c),
{
    if ('0' <= c && c <= '9') || ('a' <= c && c <= 'z') {
        Some(c)
    } else if 'A' <= c && c <= 'Z' {
        let b: u8 = (c as u32 + 32) as u8;
        Some(b as char)
    } else if white_space(c) || ('!' <= c && c <= '/') || (':' <= c && c <= '@') || ('[' <= c && c
        <= '`') || ('{' <= c && c <= '~') {
        Some(' ')
    } else {
        None
    }
}

/// The characters of `s` mapped by `slug_char`.
pub open spec fn slug_chars(s: Seq<char>) -> Seq<char>
    decreases s.len(),
{
    if s.len() == 0 {
        Seq::empty()
    } else {
        match slug_char(s[0]) {
            Some(c) => seq![c] + slug_chars(s.drop_first()),
            None => slug_chars(s.drop_first()),
        }
    }
}

/// `t` with each run of spaces between words made one space and the spaces
/// at either end dropped; `started` says a word has been seen, `gap` that a
/// space is owed before the next word.
pub open spec fn squash_from(t: Seq<char>, started: bool, gap: bool) -> Seq<char>
    decreases t.len(),
{
    if t.len() == 0 {
        Seq::empty()
    } else if t[0] == ' ' {
        squash_from(t.drop_first(), started, started)
    } else {
        (if gap {
            seq![' ']
        } else {
            Seq::empty()
        }) + seq![t[0]] + squash_from(t.drop_first(), true, false)
    }
}

/// The slug of `s`: its words, as `slug_char` makes them, joined by single
/// spaces.
pub open spec fn slug_of(s: Seq<char>) -> Seq<char> {
    squash_from(slug_chars(s), false, false)
}

proof fn lemma_slug_chars_step(s: Seq<char>, i: int)
    requires
        0 <= i < s.len(),
    ensures
        slug_chars(s.subrange(i, s.len() as int)) == match slug_char(s[i]) {
            Some(c) => seq![c] + slug_chars(s.subrange(i + 1, s.len() as int)),
            None => slug_chars(s.subrange(i + 1, s.len() as int)),
        },
{
    assert(s.subrange(i, s.len() as int).drop_first() =~= s.subrange(i + 1, s.len() as int));
}

proof fn lemma_squash_push(c: char, rest: Seq<char>, started: bool, gap: bool)
    ensures
        squash_from(seq![c] + rest, started, gap) == if c == ' ' {
            squash_from(rest, started, started)
        } else {
            (if gap {
                seq![' ']
            } else {
                Seq::empty()
            }) + seq![c] + squash_from(rest, true, false)
        },
{
    assert((seq![c] + rest).drop_first() =~= rest);
}

/// The slug of the characters `cs[from..to]`.
pub fn slug_range(cs: &Vec<char>, from: usize, to: usize) -> (r: String)
    requires
        from <= to <= cs@.len(),
    ensures
        r@ == slug_of(cs@.subrange(from as int, to as int)),
{
    let ghost s = cs@.subrange(from as int, to as int);
    let mut out = String::new();
    let mut started = false;
    let mut gap = false;
    let mut i: usize = from;
    assert(s.subrange(0, s.len() as int) =~= s);
    while i < to
        invariant
            from <= i <= to <= cs@.len(),
            s == cs@.subrange(from as int, to as int),
            gap ==> started,
            slug_of(s) == out@ + squash_from(
                slug_chars(s.subrange(i - from, s.len() as int)),
                started,
                gap,
            ),
        decreases to - i,
    {
        let c = cs[i];
        let ghost before = out@;
        proof {
            assert(s[i - from] == c);
            lemma_slug_chars_step(s, i - from);
        }
        match slug_char_exec(c) {
            Some(x) => {
                let ghost g = gap;
                proof {
                    lemma_squash_push(
                        x,
                        slug_chars(s.subrange(i - from + 1, s.len() as int)),
                        started,
                        gap,
                    );
                }
                if x == ' ' {
                    gap = started;
                } else {
                    if gap {
                        push_char(&mut out, ' ');
                    }
                    push_char(&mut out, x);
                    started = true;
                    gap = false;
                    proof {
                        let tail = squash_from(
                            slug_chars(s.subrange(i - from + 1, s.len() as int)),
                            true,
                            false,
                        );
                        let lead = if g {
                            seq![' ']
                        } else {
                            Seq::<char>::empty()
                        };
                        assert(out@ =~= before + lead + seq![x]);
                        assert(before + (lead + seq![x] + tail) =~= out@ + tail);
                    }
                }
            },
            None => {},
        }
        i = i + 1;
    }
    assert(s.subrange(to - from, s.len() as int) =~= Seq::<char>::empty());
    out
}

/// The slug of `s`: ASCII letters and digits in lower case, every run of
/// whitespace or ASCII punctuation made one space, other characters dropped,
/// and no space at either end.
pub fn slugify(s: &str) -> (r: String)
    ensures
        r@ == slug_of(s@),
{
    let cs = chars_of(s);
    assert(cs@.subrange(0, cs@.len() as int) =~= cs@);
    slug_range(&cs, 0, cs.len())
}

/// `s` without its leading whitespace.
pub open spec fn trim_start(s: Seq<char>) -> Seq<char>
    decreases s.len(),
{
    if s.len() > 0 && is_white_space(s[0]) {
        trim_start(s.drop_first())
    } else {
        s
    }
}

/// `s` without its trailing whitespace.
pub open spec fn trim_end(s: Seq<char>) -> Seq<char>
    decreases s.len(),
{
    if s.len() > 0 && is_white_space(s.last()) {
        trim_end(s.drop_last())
    } else {
        s
    }
}

/// `s` without whitespace at either end, as `str::trim` leaves it.
pub open spec fn trimmed(s: Seq<char>) -> Seq<char> {
    trim_end(trim_start(s))
}

/// Where the text of `cs` starts and ends once the whitespace at either end
/// is left out.
pub fn trim_bounds(cs: &Vec<char>) -> (r: (usize, usize))
    ensures
        r.0 <= r.1 <= cs@.len(),
        cs@.subrange(r.0 as int, r.1 as int) == trimmed(cs@),
{
    let n = cs.len();
    let mut a: usize = 0;
    assert(cs@.subrange(0, n as int) =~= cs@);
    while a < n && white_space(cs[a])
        invariant
            n == cs@.len(),
            a <= n,
            trim_start(cs@) == trim_start(cs@.subrange(a as int, n as int)),
        decreases n - a,
    {
        assert(cs@.subrange(a as int, n as int).drop_first() =~= cs@.subrange(a + 1, n as int));
        a = a + 1;
    }
    let mut b: usize = n;
    while b > a && white_space(cs[b - 1])
        invariant
            n == cs@.len(),
            a <= b <= n,
            trim_start(cs@) == cs@.subrange(a as int, n as int),
            trimmed(cs@) == trim_end(cs@.subrange(a as int, b as int)),
        decreases b - a,
    {
        assert(cs@.subrange(a as int, b as int).drop_last() =~= cs@.subrange(a as int, b - 1));
        b = b - 1;
    }
    (a, b)
}

/// `line` without a carriage return at its end.
pub open spec fn strip_cr(line: Seq<char>) -> Seq<char> {
    if line.len() > 0 && line.last() == '\r' {
        line.drop_last()
    } else {
        line
    }
}

/// The lines of `s`, given that `cur` has been read of the current line: a
/// line feed ends a line (and a carriage return before it is dropped), and a
/// last line without a line feed counts only when it is not empty.
pub open spec fn lines_from(s: Seq<char>, cur: Seq<char>) -> Seq<Seq<char>>
    decreases s.len(),
{
    if s.len() == 0 {
        if cur.len() == 0 {
            Seq::empty()
        } else {
            seq![cur]
        }
    } else if s[0] == '\n' {
        seq![strip_cr(cur)] + lines_from(s.drop_first(), Seq::empty())
    } else {
        lines_from(s.drop_first(), cur.push(s[0]))
    }
}

/// The lines of `s`, as `str::lines` yields them.
pub open spec fn lines_of(s: Seq<char>) -> Seq<Seq<char>> {
    lines_from(s, Seq::empty())
}

/// The bounds in `cs` of each line of `cs[from..to]`.
pub fn line_bounds(cs: &Vec<char>, from: usize, to: usize) -> (r: Vec<(usize, usize)>)
    requires
        from <= to <= cs@.len(),
    ensures
        r@.len() == lines_of(cs@.subrange(from as int, to as int)).len(),
        forall|k: int|
            0 <= k < r@.len() ==> {
                &&& from <= (#[trigger] r@[k]).0 <= r@[k].1 <= to
                &&& cs@.subrange(r@[k].0 as int, r@[k].1 as int) == lines_of(
                    cs@.subrange(from as int, to as int),
                )[k]
            },
{
    let ghost s = cs@.subrange(from as int, to as int);
    let ghost mut done: Seq<Seq<char>> = Seq::empty();
    let mut out: Vec<(usize, usize)> = Vec::new();
    let mut start: usize = from;
    let mut i: usize = from;
    assert(cs@.subrange(from as int, from as int) =~= Seq::<char>::empty());
    while i < to
        invariant
            from <= start <= i <= to <= cs@.len(),
            s == cs@.subrange(from as int, to as int),
            out@.len() == done.len(),
            forall|k: int|
                0 <= k < out@.len() ==> {
                    &&& from <= (#[trigger] out@[k]).0 <= out@[k].1 <= to
                    &&& cs@.subrange(out@[k].0 as int, out@[k].1 as int) == done[k]
                },
            lines_of(s) == done + lines_from(
                cs@.subrange(i as int, to as int),
                cs@.subrange(start as int, i as int),
            ),
        decreases to - i,
    {
        let ghost t = cs@.subrange(i as int, to as int);
        let ghost cur = cs@.subrange(start as int, i as int);
        assert(t.drop_first() =~= cs@.subrange(i + 1, to as int));
        if cs[i] == '\n' {
            let mut end = i;
            if end > start && cs[end - 1] == '\r' {
                end = end - 1;
                assert(strip_cr(cur) =~= cs@.subrange(start as int, end as int));
            } else {
                assert(strip_cr(cur) =~= cs@.subrange(start as int, end as int));
            }
            out.push((start, end));
            proof {
                assert(cs@.subrange(i + 1, i + 1) =~= Seq::<char>::empty());
                assert(done.push(strip_cr(cur)) + lines_from(t.drop_first(), Seq::empty()) =~= done
                    + (seq![strip_cr(cur)] + lines_from(t.drop_first(), Seq::empty())));
                done = done.push(strip_cr(cur));
            }
            start = i + 1;
        } else {
            assert(cur.push(cs@[i as int]) =~= cs@.subrange(start as int, i + 1));
        }
        i = i + 1;
    }
    let ghost cur = cs@.subrange(start as int, to as int);
    assert(cs@.subrange(to as int, to as int) =~= Seq::<char>::empty());
    if start < to {
        out.push((start, to));
        proof {
            assert(done.push(cur) =~= done + seq![cur]);
            done = done.push(cur);
        }
    } else {
        assert(done + Seq::<Seq<char>>::empty() =~= done);
    }
    out
}

/// `s` with every element after its first occurrence left out.
pub open spec fn distinct(s: Seq<Seq<char>>) -> Seq<Seq<char>>
    decreases s.len(),
{
    if s.len() == 0 {
        Seq::empty()
    } else if distinct(s.drop_last()).contains(s.last()) {
        distinct(s.drop_last())
    } else {
        distinct(s.drop_last()).push(s.last())
    }
}

/// Whether `v` holds a string with the characters of `s`.
pub fn contains_string(v: &Vec<String>, s: &String) -> (r: bool)
    ensures
        r == views(v@).contains(s@),
{
    let mut i: usize = 0;
    while i < v.len()
        invariant
            i <= v@.len(),
            forall|j: int| 0 <= j < i ==> v@[j]@ != s@,
        decreases v@.len() - i,
    {
        if v[i] == *s {
            assert(views(v@)[i as int] == s@);
            return true;
        }
        i = i + 1;
    }
    assert forall|j: int| 0 <= j < views(v@).len() implies views(v@)[j] != s@ by {
        assert(v@[j]@ != s@);
    }
    false
}

/// `c` with an ASCII small letter turned into its capital.
pub open spec fn ascii_upper(c: char) -> char {
    if 'a' <= c && c <= 'z' {
        ((c as u32) - 32) as char
    } else {
        c
    }
}

/// `s` with its ASCII small letters made capitals, as `to_ascii_uppercase`
/// leaves it.
pub open spec fn upper_of(s: Seq<char>) -> Seq<char> {
    s.map_values(|c: char| ascii_upper(c))
}

/// `s` with its ASCII small letters made capitals.
pub fn to_ascii_upper(s: &str) -> (r: String)
    ensures
        r@ == upper_of(s@),
{
    let cs = chars_of(s);
    let mut out = String::new();
    let mut i: usize = 0;
    while i < cs.len()
        invariant
            cs@ == s@,
            i <= cs@.len(),
            out@ == upper_of(s@).subrange(0, i as int),
        decreases cs@.len() - i,
    {
        let c = cs[i];
        let u = if 'a' <= c && c <= 'z' {
            let b: u8 = (c as u32 - 32) as u8;
            b as char
        } else {
            c
        };
        push_char(&mut out, u);
        assert(out@ =~= upper_of(s@).subrange(0, i + 1));
        i = i + 1;
    }
    assert(upper_of(s@).subrange(0, i as int) =~= upper_of(s@));
    out
}

} // verus!

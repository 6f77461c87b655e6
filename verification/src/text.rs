//! Character-sequence utilities shared by the parsers and the renderer:
//! conversions between `&str`/`String` and `Vec<char>`, and decimal
//! formatting of counters.
use vstd::prelude::*;

verus! {

/// The decimal digit character for a value below ten.
pub open spec fn dec_digit(n: nat) -> char {
    if n == 0 {
        '0'
    } else if n == 1 {
        '1'
    } else if n == 2 {
        '2'
    } else if n == 3 {
        '3'
    } else if n == 4 {
        '4'
    } else if n == 5 {
        '5'
    } else if n == 6 {
        '6'
    } else if n == 7 {
        '7'
    } else if n == 8 {
        '8'
    } else {
        '9'
    }
}

/// The usual base-ten rendering of `n`, most significant digit first,
/// with no leading zeros (`0` itself is rendered as "0").
pub open spec fn dec_rep(n: nat) -> Seq<char>
    decreases n,
{
    if n < 10 {
        seq![dec_digit(n)]
    } else {
        dec_rep(n / 10).push(dec_digit(n % 10))
    }
}

fn digit_char(d: u32) -> (c: char)
    requires
        d < 10,
    ensures
        c == dec_digit(d as nat),
{
    match d {
        0 => '0',
        1 => '1',
        2 => '2',
        3 => '3',
        4 => '4',
        5 => '5',
        6 => '6',
        7 => '7',
        8 => '8',
        _ => '9',
    }
}

/// Render a counter in decimal.
pub fn u32_to_chars(n: u32) -> (v: Vec<char>)
    ensures
        v@ == dec_rep(n as nat),
    decreases n,
{
    if n < 10 {
        let mut v: Vec<char> = Vec::new();
        v.push(digit_char(n));
        assert(v@ =~= dec_rep(n as nat));
        v
    } else {
        let mut v = u32_to_chars(n / 10);
        v.push(digit_char(n % 10));
        v
    }
}

/// Collect the characters of a string slice into a vector.
pub fn str_to_chars(s: &str) -> (v: Vec<char>)
    ensures
        v@ == s@,
{
    let n = s.unicode_len();
    let mut v: Vec<char> = Vec::new();
    let mut i: usize = 0;
    while i < n
        invariant
            i <= n,
            n == s@.len(),
            v@ == s@.subrange(0, i as int),
        decreases n - i,
    {
        let c = s.get_char(i);
        v.push(c);
        i = i + 1;
        assert(v@ =~= s@.subrange(0, i as int));
    }
    assert(v@ =~= s@);
    v
}

/// Whether a vector of characters spells out the given string slice.
pub fn chars_eq_str(v: &Vec<char>, s: &str) -> (r: bool)
    ensures
        r == (v@ == s@),
{
    let n = s.unicode_len();
    if v.len() != n {
        return false;
    }
    let mut i: usize = 0;
    while i < n
        invariant
            i <= n,
            n == s@.len(),
            n == v@.len(),
            v@.subrange(0, i as int) == s@.subrange(0, i as int),
        decreases n - i,
    {
        if v[i] != s.get_char(i) {
            assert(v@[i as int] != s@[i as int]);
            return false;
        }
        assert(v@.subrange(0, i + 1 as int) =~= v@.subrange(0, i as int).push(v@[i as int]));
        assert(s@.subrange(0, i + 1 as int) =~= s@.subrange(0, i as int).push(s@[i as int]));
        i = i + 1;
    }
    assert(v@ =~= v@.subrange(0, n as int));
    assert(s@ =~= s@.subrange(0, n as int));
    true
}

/// The position of the first occurrence of `c` in `s`, or `s.len()` when
/// `c` does not occur.
pub open spec fn first_idx(s: Seq<char>, c: char) -> int
    decreases s.len(),
{
    if s.len() == 0 {
        0
    } else if s[0] == c {
        0
    } else {
        1 + first_idx(s.skip(1), c)
    }
}

pub proof fn lemma_first_idx(s: Seq<char>, c: char)
    ensures
        0 <= first_idx(s, c) <= s.len(),
        first_idx(s, c) < s.len() ==> s[first_idx(s, c)] == c,
        forall|j: int| 0 <= j < first_idx(s, c) ==> s[j] != c,
    decreases s.len(),
{
    if s.len() == 0 {
    } else if s[0] == c {
    } else {
        lemma_first_idx(s.skip(1), c);
        assert forall|j: int| 0 <= j < first_idx(s, c) implies s[j] != c by {
            if j > 0 {
                assert(s.skip(1)[j - 1] == s[j]);
            }
        }
    }
}

/// The exact characterization: a scan that saw no `c` before position `m`
/// and either ran out or found `c` at `m` has found `first_idx`.
pub proof fn lemma_first_idx_is(s: Seq<char>, c: char, m: int)
    requires
        0 <= m <= s.len(),
        forall|j: int| 0 <= j < m ==> s[j] != c,
        m == s.len() || s[m] == c,
    ensures
        first_idx(s, c) == m,
{
    lemma_first_idx(s, c);
    let f = first_idx(s, c);
    if f < m {
        assert(s[f] == c);
    }
    if m < f {
        assert(s[m] != c);
    }
}

/// Splitting on a separator character, in the manner of `str::split`:
/// every stretch between separators is a field, empty fields included,
/// and the empty input has one empty field.
pub open spec fn split_at_sep(s: Seq<char>, sep: char) -> Seq<Seq<char>>
    decreases s.len(),
{
    let i = first_idx(s, sep);
    if 0 <= i < s.len() {
        seq![s.take(i)] + split_at_sep(s.skip(i + 1), sep)
    } else {
        seq![s]
    }
}

/// Split a character vector on a separator character.
pub fn split_vec(s: &Vec<char>, sep: char) -> (r: Vec<Vec<char>>)
    ensures
        r.deep_view() == split_at_sep(s@, sep),
{
    let mut r: Vec<Vec<char>> = Vec::new();
    let mut pos: usize = 0;
    proof {
        assert(s@.skip(0) =~= s@);
        assert(r.deep_view() =~~= Seq::<Seq<char>>::empty());
        assert(r.deep_view() + split_at_sep(s@, sep) =~~= split_at_sep(s@, sep));
    }
    loop
        invariant_except_break
            split_at_sep(s@, sep) == r.deep_view() + split_at_sep(s@.skip(pos as int), sep),
        invariant
            pos <= s@.len(),
        ensures
            r.deep_view() == split_at_sep(s@, sep),
        decreases s@.len() - pos,
    {
        let ghost rest = s@.skip(pos as int);
        let mut j: usize = pos;
        while j < s.len() && s[j] != sep
            invariant
                pos <= j <= s@.len(),
                forall|k: int| pos <= k < j ==> s@[k] != sep,
            decreases s@.len() - j,
        {
            j = j + 1;
        }
        let mut field: Vec<char> = Vec::new();
        let mut k: usize = pos;
        while k < j
            invariant
                pos <= k <= j <= s@.len(),
                field@ == s@.subrange(pos as int, k as int),
            decreases j - k,
        {
            field.push(s[k]);
            k = k + 1;
            assert(field@ =~= s@.subrange(pos as int, k as int));
        }
        proof {
            assert forall|m: int| 0 <= m < j - pos implies rest[m] != sep by {
                assert(rest[m] == s@[pos + m]);
            }
            if j < s@.len() {
                assert(rest[j - pos] == s@[j as int]);
            }
            lemma_first_idx_is(rest, sep, j - pos);
        }
        let ghost fv = field@;
        let ghost old_r = r.deep_view();
        let hit_sep = j < s.len();
        r.push(field);
        proof {
            assert(r.deep_view() =~~= old_r.push(fv));
        }
        if hit_sep {
            proof {
                assert(rest.take(j - pos) =~= s@.subrange(pos as int, j as int));
                assert(rest.take(j - pos) == fv);
                assert(rest.skip(j - pos + 1) =~= s@.skip(j + 1 as int));
                assert(split_at_sep(rest, sep) == seq![fv] + split_at_sep(
                    s@.skip(j + 1 as int),
                    sep,
                ));
                assert(old_r + (seq![fv] + split_at_sep(s@.skip(j + 1 as int), sep))
                    =~~= old_r.push(fv) + split_at_sep(s@.skip(j + 1 as int), sep));
            }
            pos = j + 1;
        } else {
            proof {
                assert(rest =~= s@.subrange(pos as int, j as int));
                assert(rest == fv);
                assert(split_at_sep(rest, sep) == seq![rest]);
                assert(old_r + seq![rest] =~~= old_r.push(fv));
            }
            break;
        }
    }
    r
}

/// A line with a trailing carriage return loses it, in the manner of
/// `str::lines`.
pub open spec fn strip_cr(l: Seq<char>) -> Seq<char> {
    if l.len() > 0 && l.last() == '\r' {
        l.drop_last()
    } else {
        l
    }
}

/// The lines of a text, in the manner of `str::lines`: separated by `'\n'`,
/// each stripped of a trailing `'\r'`, with no phantom line after a final
/// newline.
pub open spec fn split_lines(s: Seq<char>) -> Seq<Seq<char>>
    decreases s.len(),
{
    if s.len() == 0 {
        Seq::empty()
    } else {
        let i = first_idx(s, '\n');
        if 0 <= i < s.len() {
            seq![strip_cr(s.take(i))] + split_lines(s.skip(i + 1))
        } else {
            seq![strip_cr(s)]
        }
    }
}

/// There are never more lines than characters.
pub proof fn lemma_split_lines_count(s: Seq<char>)
    ensures
        split_lines(s).len() <= s.len(),
    decreases s.len(),
{
    if s.len() > 0 {
        lemma_first_idx(s, '\n');
        let i = first_idx(s, '\n');
        if 0 <= i < s.len() {
            lemma_split_lines_count(s.skip(i + 1));
        }
    }
}

/// Split a character vector into its lines.
pub fn lines_vec(s: &Vec<char>) -> (r: Vec<Vec<char>>)
    ensures
        r.deep_view() == split_lines(s@),
{
    let mut r: Vec<Vec<char>> = Vec::new();
    let mut pos: usize = 0;
    proof {
        assert(s@.skip(0) =~= s@);
        assert(r.deep_view() =~~= Seq::<Seq<char>>::empty());
        assert(r.deep_view() + split_lines(s@) =~~= split_lines(s@));
    }
    while pos < s.len()
        invariant
            pos <= s@.len(),
            split_lines(s@) == r.deep_view() + split_lines(s@.skip(pos as int)),
        decreases s@.len() - pos,
    {
        let ghost rest = s@.skip(pos as int);
        let mut j: usize = pos;
        while j < s.len() && s[j] != '\n'
            invariant
                pos <= j <= s@.len(),
                forall|k: int| pos <= k < j ==> s@[k] != '\n',
            decreases s@.len() - j,
        {
            j = j + 1;
        }
        let mut field: Vec<char> = Vec::new();
        let mut k: usize = pos;
        while k < j
            invariant
                pos <= k <= j <= s@.len(),
                field@ == s@.subrange(pos as int, k as int),
            decreases j - k,
        {
            field.push(s[k]);
            k = k + 1;
            assert(field@ =~= s@.subrange(pos as int, k as int));
        }
        let ghost chunk = s@.subrange(pos as int, j as int);
        if field.len() > 0 && field[field.len() - 1] == '\r' {
            field.pop();
            assert(field@ =~= chunk.drop_last());
        }
        proof {
            assert(field@ == strip_cr(chunk));
            assert forall|m: int| 0 <= m < j - pos implies rest[m] != '\n' by {
                assert(rest[m] == s@[pos + m]);
            }
            if j < s@.len() {
                assert(rest[j - pos] == s@[j as int]);
            }
            lemma_first_idx_is(rest, '\n', j - pos);
        }
        let ghost fv = field@;
        let ghost old_r = r.deep_view();
        let hit_nl = j < s.len();
        r.push(field);
        proof {
            assert(r.deep_view() =~~= old_r.push(fv));
        }
        if hit_nl {
            proof {
                assert(rest.take(j - pos) =~= chunk);
                assert(rest.skip(j - pos + 1) =~= s@.skip(j + 1 as int));
                assert(split_lines(rest) == seq![strip_cr(chunk)] + split_lines(
                    s@.skip(j + 1 as int),
                ));
                assert(old_r + (seq![fv] + split_lines(s@.skip(j + 1 as int))) =~~= old_r.push(fv)
                    + split_lines(s@.skip(j + 1 as int)));
            }
            pos = j + 1;
        } else {
            proof {
                assert(rest =~= chunk);
                assert(rest.len() > 0);
                assert(split_lines(rest) == seq![strip_cr(chunk)]);
                assert(old_r + seq![fv] =~~= old_r.push(fv));
                assert(s@.skip(j as int) =~= Seq::<char>::empty());
                assert(old_r.push(fv) + split_lines(s@.skip(j as int)) =~~= old_r.push(fv));
            }
            pos = j;
        }
    }
    proof {
        assert(s@.skip(pos as int) =~= Seq::<char>::empty());
        assert(r.deep_view() + split_lines(s@.skip(pos as int)) =~~= r.deep_view());
    }
    r
}

/// The whitespace characters recognized when splitting and trimming:
/// the ASCII blank, tab, newline, carriage-return and the two vertical
/// spacing controls.
pub open spec fn is_ws(c: char) -> bool {
    c == ' ' || c == '\t' || c == '\n' || c == '\r' || c == '\u{b}' || c == '\u{c}'
}

/// Whether a character is recognized as whitespace.
pub fn char_is_ws(c: char) -> (r: bool)
    ensures
        r == is_ws(c),
{
    c == ' ' || c == '\t' || c == '\n' || c == '\r' || c == '\u{b}' || c == '\u{c}'
}

/// The position of the first whitespace character, or `s.len()`.
pub open spec fn first_ws(s: Seq<char>) -> int
    decreases s.len(),
{
    if s.len() == 0 {
        0
    } else if is_ws(s[0]) {
        0
    } else {
        1 + first_ws(s.skip(1))
    }
}

pub proof fn lemma_first_ws(s: Seq<char>)
    ensures
        0 <= first_ws(s) <= s.len(),
        first_ws(s) < s.len() ==> is_ws(s[first_ws(s)]),
        forall|j: int| 0 <= j < first_ws(s) ==> !is_ws(s[j]),
    decreases s.len(),
{
    if s.len() == 0 {
    } else if is_ws(s[0]) {
    } else {
        lemma_first_ws(s.skip(1));
        assert forall|j: int| 0 <= j < first_ws(s) implies !is_ws(s[j]) by {
            if j > 0 {
                assert(s.skip(1)[j - 1] == s[j]);
            }
        }
    }
}

pub proof fn lemma_first_ws_is(s: Seq<char>, m: int)
    requires
        0 <= m <= s.len(),
        forall|j: int| 0 <= j < m ==> !is_ws(s[j]),
        m == s.len() || is_ws(s[m]),
    ensures
        first_ws(s) == m,
{
    lemma_first_ws(s);
    let f = first_ws(s);
    if f < m {
        assert(is_ws(s[f]));
    }
    if m < f {
        assert(!is_ws(s[m]));
    }
}

/// The whitespace-delimited words of a text, in the manner of
/// `str::split_whitespace`: maximal stretches of non-whitespace, with
/// no empty words.
pub open spec fn split_ws(s: Seq<char>) -> Seq<Seq<char>>
    decreases s.len(),
{
    if s.len() == 0 {
        Seq::empty()
    } else if is_ws(s[0]) {
        split_ws(s.skip(1))
    } else {
        let i = first_ws(s);
        if 1 <= i < s.len() {
            seq![s.take(i)] + split_ws(s.skip(i))
        } else {
            seq![s]
        }
    }
}

/// Split a character vector into whitespace-delimited words.
pub fn split_ws_vec(s: &Vec<char>) -> (r: Vec<Vec<char>>)
    ensures
        r.deep_view() == split_ws(s@),
{
    let mut r: Vec<Vec<char>> = Vec::new();
    let mut pos: usize = 0;
    proof {
        assert(s@.skip(0) =~= s@);
        assert(r.deep_view() =~~= Seq::<Seq<char>>::empty());
        assert(r.deep_view() + split_ws(s@) =~~= split_ws(s@));
    }
    while pos < s.len()
        invariant
            pos <= s@.len(),
            split_ws(s@) == r.deep_view() + split_ws(s@.skip(pos as int)),
        decreases s@.len() - pos,
    {
        if char_is_ws(s[pos]) {
            proof {
                let rest = s@.skip(pos as int);
                assert(rest[0] == s@[pos as int]);
                assert(split_ws(rest) == split_ws(rest.skip(1)));
                assert(rest.skip(1) =~= s@.skip(pos + 1 as int));
            }
            pos = pos + 1;
        } else {
            let ghost rest = s@.skip(pos as int);
            let mut j: usize = pos;
            while j < s.len() && !char_is_ws(s[j])
                invariant
                    pos <= j <= s@.len(),
                    forall|k: int| pos <= k < j ==> !is_ws(s@[k]),
                decreases s@.len() - j,
            {
                j = j + 1;
            }
            let mut field: Vec<char> = Vec::new();
            let mut k: usize = pos;
            while k < j
                invariant
                    pos <= k <= j <= s@.len(),
                    field@ == s@.subrange(pos as int, k as int),
                decreases j - k,
            {
                field.push(s[k]);
                k = k + 1;
                assert(field@ =~= s@.subrange(pos as int, k as int));
            }
            proof {
                assert forall|m: int| 0 <= m < j - pos implies !is_ws(rest[m]) by {
                    assert(rest[m] == s@[pos + m]);
                }
                if j < s@.len() {
                    assert(rest[j - pos] == s@[j as int]);
                }
                lemma_first_ws_is(rest, j - pos);
                assert(rest[0] == s@[pos as int]);
            }
            let ghost fv = field@;
            let ghost old_r = r.deep_view();
            let hit_ws = j < s.len();
            r.push(field);
            proof {
                assert(r.deep_view() =~~= old_r.push(fv));
            }
            if hit_ws {
                proof {
                    assert(rest.take(j - pos) =~= s@.subrange(pos as int, j as int));
                    assert(rest.skip(j - pos) =~= s@.skip(j as int));
                    assert(split_ws(rest) == seq![fv] + split_ws(s@.skip(j as int)));
                    assert(old_r + (seq![fv] + split_ws(s@.skip(j as int))) =~~= old_r.push(fv)
                        + split_ws(s@.skip(j as int)));
                }
                pos = j;
            } else {
                proof {
                    assert(rest =~= s@.subrange(pos as int, j as int));
                    assert(rest == fv);
                    assert(split_ws(rest) == seq![rest]);
                    assert(old_r + seq![fv] =~~= old_r.push(fv));
                    assert(s@.skip(j as int) =~= Seq::<char>::empty());
                    assert(old_r.push(fv) + split_ws(s@.skip(j as int)) =~~= old_r.push(fv));
                }
                pos = j;
            }
        }
    }
    proof {
        assert(s@.skip(pos as int) =~= Seq::<char>::empty());
        assert(r.deep_view() + split_ws(s@.skip(pos as int)) =~~= r.deep_view());
    }
    r
}

/// What is left after discarding leading whitespace.
pub open spec fn trim_start_rec(s: Seq<char>) -> Seq<char>
    decreases s.len(),
{
    if s.len() > 0 && is_ws(s[0]) {
        trim_start_rec(s.skip(1))
    } else {
        s
    }
}

/// What is left after discarding trailing whitespace.
pub open spec fn trim_end_rec(s: Seq<char>) -> Seq<char>
    decreases s.len(),
{
    if s.len() > 0 && is_ws(s.last()) {
        trim_end_rec(s.drop_last())
    } else {
        s
    }
}

/// A text with both leading and trailing whitespace discarded, in the
/// manner of `str::trim`.
pub open spec fn trim_spec(s: Seq<char>) -> Seq<char> {
    trim_end_rec(trim_start_rec(s))
}

proof fn lemma_trim_start_at(s: Seq<char>, a: int)
    requires
        0 <= a <= s.len(),
        forall|k: int| 0 <= k < a ==> is_ws(s[k]),
        a == s.len() || !is_ws(s[a]),
    ensures
        trim_start_rec(s) == s.skip(a),
    decreases a,
{
    if a == 0 {
        assert(s.skip(0) =~= s);
    } else {
        assert(is_ws(s[0]));
        lemma_trim_start_at(s.skip(1), a - 1);
        assert(s.skip(1).skip(a - 1) =~= s.skip(a));
    }
}

proof fn lemma_trim_end_at(s: Seq<char>, b: int)
    requires
        0 <= b <= s.len(),
        forall|k: int| b <= k < s.len() ==> is_ws(s[k]),
        b == 0 || !is_ws(s[b - 1]),
    ensures
        trim_end_rec(s) == s.take(b),
    decreases s.len(),
{
    if b == s.len() {
        if s.len() > 0 && is_ws(s.last()) {
            assert(false);
        }
        assert(s.take(b) =~= s);
    } else {
        assert(is_ws(s.last()));
        lemma_trim_end_at(s.drop_last(), b);
        assert(s.drop_last().take(b) =~= s.take(b));
    }
}

/// Discard leading and trailing whitespace from a character vector.
pub fn trim_vec(s: &Vec<char>) -> (r: Vec<char>)
    ensures
        r@ == trim_spec(s@),
{
    let mut a: usize = 0;
    while a < s.len() && char_is_ws(s[a])
        invariant
            a <= s@.len(),
            forall|k: int| 0 <= k < a ==> is_ws(s@[k]),
        decreases s@.len() - a,
    {
        a = a + 1;
    }
    let mut b: usize = s.len();
    while b > a && char_is_ws(s[b - 1])
        invariant
            a <= b <= s@.len(),
            forall|k: int| b <= k < s@.len() ==> is_ws(s@[k]),
        decreases b,
    {
        b = b - 1;
    }
    let mut r: Vec<char> = Vec::new();
    let mut k: usize = a;
    while k < b
        invariant
            a <= k <= b <= s@.len(),
            r@ == s@.subrange(a as int, k as int),
        decreases b - k,
    {
        r.push(s[k]);
        k = k + 1;
        assert(r@ =~= s@.subrange(a as int, k as int));
    }
    proof {
        lemma_trim_start_at(s@, a as int);
        let t = s@.skip(a as int);
        if b == a {
            assert forall|m: int| 0 <= m < t.len() implies is_ws(t[m]) by {
                assert(t[m] == s@[a + m]);
            }
            lemma_trim_end_at(t, 0);
            assert(r@ =~= t.take(0));
        } else {
            assert forall|m: int| b - a <= m < t.len() implies is_ws(t[m]) by {
                assert(t[m] == s@[a + m]);
            }
            assert(t[b - a - 1] == s@[b - 1]);
            lemma_trim_end_at(t, b - a);
            assert(r@ =~= t.take(b - a));
        }
    }
    r
}

/// Compare two string slices character by character.
pub fn str_eq(a: &str, b: &str) -> (r: bool)
    ensures
        r == (a@ == b@),
{
    let na = a.unicode_len();
    let nb = b.unicode_len();
    if na != nb {
        assert(a@ != b@);
        return false;
    }
    let mut i: usize = 0;
    while i < na
        invariant
            i <= na,
            na == a@.len(),
            na == b@.len(),
            a@.subrange(0, i as int) == b@.subrange(0, i as int),
        decreases na - i,
    {
        if a.get_char(i) != b.get_char(i) {
            assert(a@[i as int] != b@[i as int]);
            return false;
        }
        assert(a@.subrange(0, i + 1 as int) =~= a@.subrange(0, i as int).push(a@[i as int]));
        assert(b@.subrange(0, i + 1 as int) =~= b@.subrange(0, i as int).push(b@[i as int]));
        i = i + 1;
    }
    assert(a@ =~= a@.subrange(0, na as int));
    assert(b@ =~= b@.subrange(0, na as int));
    true
}

/// How many lines of a report satisfy a predicate.
pub open spec fn count_lines(lines: Seq<Seq<char>>, p: spec_fn(Seq<char>) -> bool) -> nat
    decreases lines.len(),
{
    if lines.len() == 0 {
        0
    } else {
        count_lines(lines.drop_last(), p) + if p(lines.last()) {
            1nat
        } else {
            0nat
        }
    }
}

pub proof fn lemma_count_push(lines: Seq<Seq<char>>, p: spec_fn(Seq<char>) -> bool, x: Seq<char>)
    ensures
        count_lines(lines.push(x), p) == count_lines(lines, p) + if p(x) {
            1nat
        } else {
            0nat
        },
{
    assert(lines.push(x).drop_last() =~= lines);
    assert(lines.push(x).last() == x);
}

pub proof fn lemma_count_le(lines: Seq<Seq<char>>, p: spec_fn(Seq<char>) -> bool)
    ensures
        count_lines(lines, p) <= lines.len(),
    decreases lines.len(),
{
    if lines.len() > 0 {
        lemma_count_le(lines.drop_last(), p);
    }
}

/// Replacement of every occurrence of a pattern, in the manner of
/// `str::replace`: scanned left to right, non-overlapping, the text after
/// a replaced occurrence scanned afresh. An empty pattern replaces nothing.
pub open spec fn replace_spec(s: Seq<char>, pat: Seq<char>, rep: Seq<char>) -> Seq<char>
    decreases s.len(),
{
    if pat.len() == 0 || s.len() < pat.len() {
        s
    } else if s.take(pat.len() as int) == pat {
        rep + replace_spec(s.skip(pat.len() as int), pat, rep)
    } else {
        seq![s[0]] + replace_spec(s.skip(1), pat, rep)
    }
}

/// Append a copy of `piece` to `out`.
pub fn extend_chars(out: &mut Vec<char>, piece: &Vec<char>)
    ensures
        final(out)@ == old(out)@ + piece@,
{
    let mut k: usize = 0;
    while k < piece.len()
        invariant
            k <= piece@.len(),
            out@ == old(out)@ + piece@.subrange(0, k as int),
        decreases piece@.len() - k,
    {
        out.push(piece[k]);
        k = k + 1;
        assert(out@ =~= old(out)@ + piece@.subrange(0, k as int));
    }
    assert(out@ =~= old(out)@ + piece@);
}

/// Replace every occurrence of `pat` in `s` by `rep`.
pub fn replace_chars(s: &Vec<char>, pat: &Vec<char>, rep: &Vec<char>) -> (r: Vec<char>)
    ensures
        r@ == replace_spec(s@, pat@, rep@),
{
    let mut out: Vec<char> = Vec::new();
    if pat.len() == 0 {
        extend_chars(&mut out, s);
        assert(out@ =~= s@);
        return out;
    }
    let mut pos: usize = 0;
    proof {
        assert(s@.skip(0) =~= s@);
        assert(out@ + replace_spec(s@, pat@, rep@) =~= replace_spec(s@, pat@, rep@));
    }
    while pos < s.len()
        invariant
            pos <= s@.len(),
            pat@.len() >= 1,
            replace_spec(s@, pat@, rep@) == out@ + replace_spec(s@.skip(pos as int), pat@, rep@),
        decreases s@.len() - pos,
    {
        let ghost rest = s@.skip(pos as int);
        if pat.len() <= s.len() - pos {
            let mut matches_here = true;
            let mut k: usize = 0;
            while matches_here && k < pat.len()
                invariant
                    k <= pat@.len(),
                    pos + pat@.len() <= s@.len() <= usize::MAX,
                    matches_here ==> s@.subrange(pos as int, pos + k as int) == pat@.subrange(
                        0,
                        k as int,
                    ),
                    !matches_here ==> s@.subrange(pos as int, pos + pat@.len()) != pat@,
                decreases pat@.len() - k + if matches_here {
                    1int
                } else {
                    0int
                },
            {
                if s[pos + k] == pat[k] {
                    proof {
                        assert(s@.subrange(pos as int, pos + (k + 1) as int) =~= s@.subrange(
                            pos as int,
                            pos + k as int,
                        ).push(s@[pos + k]));
                        assert(pat@.subrange(0, k + 1 as int) =~= pat@.subrange(0, k as int).push(
                            pat@[k as int],
                        ));
                    }
                    k = k + 1;
                } else {
                    proof {
                        assert(s@.subrange(pos as int, pos + pat@.len())[k as int] == s@[pos + k]);
                    }
                    matches_here = false;
                }
            }
            if matches_here {
                proof {
                    assert(s@.subrange(pos as int, pos + pat@.len()) == pat@.subrange(
                        0,
                        pat@.len() as int,
                    ));
                    assert(pat@.subrange(0, pat@.len() as int) =~= pat@);
                    assert(rest.take(pat@.len() as int) =~= s@.subrange(pos as int, pos
                        + pat@.len()));
                    assert(rest.skip(pat@.len() as int) =~= s@.skip(pos + pat@.len()));
                    assert(replace_spec(rest, pat@, rep@) == rep@ + replace_spec(
                        s@.skip(pos + pat@.len()),
                        pat@,
                        rep@,
                    ));
                }
                extend_chars(&mut out, rep);
                proof {
                    assert(out@ + replace_spec(s@.skip(pos + pat@.len()), pat@, rep@)
                        =~= replace_spec(s@, pat@, rep@));
                }
                pos = pos + pat.len();
            } else {
                proof {
                    assert(rest.take(pat@.len() as int) =~= s@.subrange(pos as int, pos
                        + pat@.len()));
                    assert(rest.take(pat@.len() as int) != pat@);
                    assert(rest[0] == s@[pos as int]);
                    assert(rest.skip(1) =~= s@.skip(pos + 1 as int));
                    assert(replace_spec(rest, pat@, rep@) == seq![s@[pos as int]] + replace_spec(
                        s@.skip(pos + 1 as int),
                        pat@,
                        rep@,
                    ));
                }
                let ghost old_out = out@;
                out.push(s[pos]);
                proof {
                    assert(out@ =~= old_out + seq![s@[pos as int]]);
                    assert(out@ + replace_spec(s@.skip(pos + 1 as int), pat@, rep@)
                        =~= replace_spec(s@, pat@, rep@));
                }
                pos = pos + 1;
            }
        } else {
            proof {
                assert(rest.len() < pat@.len());
                assert(replace_spec(rest, pat@, rep@) == rest);
                assert(rest =~= seq![s@[pos as int]] + s@.skip(pos + 1 as int));
                assert(s@.skip(pos + 1 as int).len() < pat@.len());
                assert(replace_spec(s@.skip(pos + 1 as int), pat@, rep@) == s@.skip(
                    pos + 1 as int,
                ));
            }
            let ghost old_out = out@;
            out.push(s[pos]);
            proof {
                assert(out@ =~= old_out + seq![s@[pos as int]]);
                assert(out@ + replace_spec(s@.skip(pos + 1 as int), pat@, rep@) =~= replace_spec(
                    s@,
                    pat@,
                    rep@,
                ));
            }
            pos = pos + 1;
        }
    }
    proof {
        assert(s@.skip(pos as int) =~= Seq::<char>::empty());
        assert(replace_spec(Seq::<char>::empty(), pat@, rep@) == Seq::<char>::empty());
        assert(out@ + Seq::<char>::empty() =~= out@);
    }
    out
}

/// Whether a character is a decimal digit.
pub open spec fn is_digit(c: char) -> bool {
    48 <= c as u32 <= 57
}

/// The numeric value of a digit character.
pub open spec fn digit_of(c: char) -> nat {
    (c as u32 - 48) as nat
}

/// Whether a text is one or more decimal digits and nothing else.
pub open spec fn valid_dec(s: Seq<char>) -> bool {
    s.len() > 0 && forall|i: int| 0 <= i < s.len() ==> is_digit(s[i])
}

/// The value of a digit string read in base ten.
pub open spec fn dec_val(s: Seq<char>) -> nat
    decreases s.len(),
{
    if s.len() == 0 {
        0
    } else {
        dec_val(s.drop_last()) * 10 + digit_of(s.last())
    }
}

/// The result of `str::parse::<u32>`: an optional leading `'+'`, then
/// digits, with the value within range.
pub open spec fn parse_u32_spec(s: Seq<char>) -> Option<u32> {
    let mag = if s.len() > 0 && s[0] == '+' {
        s.skip(1)
    } else {
        s
    };
    if valid_dec(mag) && dec_val(mag) <= u32::MAX {
        Some(dec_val(mag) as u32)
    } else {
        None
    }
}

/// The result of `str::parse::<i32>`: an optional sign, then digits,
/// with the value within range.
pub open spec fn parse_i32_spec(s: Seq<char>) -> Option<int> {
    if s.len() > 0 && (s[0] == '+' || s[0] == '-') {
        let mag = s.skip(1);
        if valid_dec(mag) {
            let v = if s[0] == '-' {
                -(dec_val(mag) as int)
            } else {
                dec_val(mag) as int
            };
            if -0x8000_0000 <= v <= 0x7fff_ffff {
                Some(v)
            } else {
                None
            }
        } else {
            None
        }
    } else {
        if valid_dec(s) && dec_val(s) <= 0x7fff_ffff {
            Some(dec_val(s) as int)
        } else {
            None
        }
    }
}

/// A digit-string value held exactly below `2^32` and saturated there
/// above, so that range checks on the exact value stay decidable.
pub open spec fn clamp32(n: nat) -> nat {
    if n < 0x1_0000_0000 {
        n
    } else {
        0x1_0000_0000
    }
}

fn dec_magnitude(s: &Vec<char>, from: usize) -> (r: Option<u64>)
    requires
        from <= s.len(),
    ensures
        match r {
            Some(v) => valid_dec(s@.skip(from as int)) && v == clamp32(
                dec_val(s@.skip(from as int)),
            ),
            None => !valid_dec(s@.skip(from as int)),
        },
{
    let ghost mag = s@.skip(from as int);
    if from == s.len() {
        assert(mag.len() == 0);
        return None;
    }
    let mut acc: u64 = 0;
    let mut i: usize = from;
    proof {
        assert(s@.subrange(from as int, from as int) =~= Seq::<char>::empty());
    }
    while i < s.len()
        invariant
            from <= i <= s@.len(),
            forall|k: int| from <= k < i ==> is_digit(s@[k]),
            acc == clamp32(dec_val(s@.subrange(from as int, i as int))),
        decreases s@.len() - i,
    {
        let c = s[i];
        let cu = c as u32;
        if cu < 48 || cu > 57 {
            proof {
                assert(s@.skip(from as int).len() == s@.len() - from);
                assert(!is_digit(s@[i as int]));
                assert(s@.skip(from as int)[i - from as int] == s@[i as int]);
                assert(!valid_dec(s@.skip(from as int)));
            }
            return None;
        }
        let d = (cu - 48) as u64;
        assert(is_digit(s@[i as int]) && d == digit_of(s@[i as int]));
        let ghost pre = s@.subrange(from as int, i as int);
        let ghost post = s@.subrange(from as int, i + 1 as int);
        proof {
            assert(post.drop_last() =~= pre);
            assert(post.last() == s@[i as int]);
            assert(dec_val(post) == dec_val(pre) * 10 + digit_of(s@[i as int]));
        }
        acc = acc * 10 + d;
        if acc > 0x1_0000_0000 {
            acc = 0x1_0000_0000;
        }
        proof {
            if dec_val(pre) < 0x1_0000_0000 {
                assert(acc == clamp32(dec_val(post)));
            } else {
                assert(dec_val(pre) * 10 >= dec_val(pre));
                assert(acc == clamp32(dec_val(post)));
            }
        }
        i = i + 1;
    }
    proof {
        assert(mag =~= s@.subrange(from as int, s@.len() as int));
        assert forall|k: int| 0 <= k < mag.len() implies is_digit(mag[k]) by {
            assert(mag[k] == s@[from + k]);
        }
        assert(valid_dec(mag));
    }
    Some(acc)
}

/// Parse a word as an unsigned 32-bit count, in the manner of
/// `str::parse::<u32>`.
pub fn parse_u32_vec(tok: &Vec<char>) -> (r: Option<u32>)
    ensures
        r == parse_u32_spec(tok@),
{
    let from: usize = if tok.len() > 0 && tok[0] == '+' {
        1
    } else {
        0
    };
    proof {
        if from == 0 {
            assert(tok@.skip(0) =~= tok@);
        }
    }
    match dec_magnitude(tok, from) {
        Some(v) => {
            if v <= 0xffff_ffff {
                Some(v as u32)
            } else {
                None
            }
        },
        None => None,
    }
}

/// Parse a word as a signed 32-bit value and return its absolute value,
/// in the manner of `str::parse::<i32>` followed by `i32::abs`.
pub fn parse_i32_abs(tok: &Vec<char>) -> (r: Option<u32>)
    ensures
        r == match parse_i32_spec(tok@) {
            Some(v) => Some(
                (if v < 0 {
                    -v
                } else {
                    v
                }) as u32,
            ),
            None => None::<u32>,
        },
{
    if tok.len() > 0 && (tok[0] == '+' || tok[0] == '-') {
        let neg = tok[0] == '-';
        match dec_magnitude(tok, 1) {
            Some(v) => {
                if neg {
                    if v <= 0x8000_0000 {
                        Some(v as u32)
                    } else {
                        None
                    }
                } else {
                    if v <= 0x7fff_ffff {
                        Some(v as u32)
                    } else {
                        None
                    }
                }
            },
            None => None,
        }
    } else {
        proof {
            assert(tok@.skip(0) =~= tok@);
        }
        match dec_magnitude(tok, 0) {
            Some(v) => {
                if v <= 0x7fff_ffff {
                    Some(v as u32)
                } else {
                    None
                }
            },
            None => None,
        }
    }
}

/// Relies on `String::push`: appends the given character to the end of
/// the string.
#[verifier::external_body]
fn push_char(s: &mut String, c: char)
    ensures
        final(s)@ == old(s)@ + seq![c],
{
    s.push(c)
}

/// Collect a vector of characters into an owned string.
pub fn chars_to_string(v: &Vec<char>) -> (s: String)
    ensures
        s@ == v@,
{
    let mut s = String::new();
    let mut i: usize = 0;
    while i < v.len()
        invariant
            i <= v.len(),
            s@ == v@.subrange(0, i as int),
        decreases v.len() - i,
    {
        push_char(&mut s, v[i]);
        i = i + 1;
        assert(s@ =~= v@.subrange(0, i as int));
    }
    assert(s@ =~= v@);
    s
}

} // verus!

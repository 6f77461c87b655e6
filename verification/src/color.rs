//! The color resolver: one pass of literal substring replacement turning
//! every bracketed color tag into its terminal escape sequence.
use vstd::prelude::*;

use crate::text::{chars_to_string, first_idx, replace_chars, replace_spec, str_to_chars};

verus! {

/// The escape character that opens every terminal control sequence.
pub open spec fn esc() -> char {
    '\u{1b}'
}

/// The number of entries in the color table.
pub open spec fn color_count() -> int {
    12
}

/// The bracketed tag of the color table entry at position `i`.
pub open spec fn color_key(i: int) -> Seq<char> {
    if i == 0 {
        seq!['{', 'r', 'e', 's', 'e', 't', '}']
    } else if i == 1 {
        seq!['{', 'b', 'o', 'l', 'd', '}']
    } else if i == 2 {
        seq!['{', 'b', 'l', 'a', 'c', 'k', '}']
    } else if i == 3 {
        seq!['{', 'r', 'e', 'd', '}']
    } else if i == 4 {
        seq!['{', 'g', 'r', 'e', 'e', 'n', '}']
    } else if i == 5 {
        seq!['{', 'y', 'e', 'l', 'l', 'o', 'w', '}']
    } else if i == 6 {
        seq!['{', 'b', 'l', 'u', 'e', '}']
    } else if i == 7 {
        seq!['{', 'm', 'a', 'g', 'e', 'n', 't', 'a', '}']
    } else if i == 8 {
        seq!['{', 'c', 'y', 'a', 'n', '}']
    } else if i == 9 {
        seq!['{', 'g', 'r', 'a', 'y', '}']
    } else if i == 10 {
        seq!['{', 'w', 'h', 'i', 't', 'e', '}']
    } else {
        seq!['{', 'b', 'l', 'a', 'c', 'k', '_', 'o', 'n', '_', 'g', 'r', 'e', 'e', 'n', '}']
    }
}

/// The escape sequence of the color table entry at position `i`.
pub open spec fn color_val(i: int) -> Seq<char> {
    if i == 0 {
        seq![esc(), '[', '0', '0', 'm']
    } else if i == 1 {
        seq![esc(), '[', '0', '1', 'm']
    } else if i == 2 {
        seq![esc(), '[', '3', '0', 'm']
    } else if i == 3 {
        seq![esc(), '[', '3', '1', 'm']
    } else if i == 4 {
        seq![esc(), '[', '3', '2', 'm']
    } else if i == 5 {
        seq![esc(), '[', '3', '3', 'm']
    } else if i == 6 {
        seq![esc(), '[', '3', '4', 'm']
    } else if i == 7 {
        seq![esc(), '[', '3', '5', 'm']
    } else if i == 8 {
        seq![esc(), '[', '3', '6', 'm']
    } else if i == 9 {
        seq![esc(), '[', '3', '8', ';', '5', ';', '2', '4', '8', 'm']
    } else if i == 10 {
        seq![esc(), '[', '3', '7', 'm']
    } else {
        seq![esc(), '[', '4', '8', ';', '5', ';', '2', 'm', esc(), '[', '3', '0', 'm']
    }
}

/// The text after the table entries from position `i` onward have been
/// substituted, in table order.
pub open spec fn resolve_from(s: Seq<char>, i: int) -> Seq<char>
    decreases color_count() - i,
{
    if 0 <= i < color_count() {
        resolve_from(replace_spec(s, color_key(i), color_val(i)), i + 1)
    } else {
        s
    }
}

/// The text with every color tag replaced by its escape sequence.
pub open spec fn resolve_spec(s: Seq<char>) -> Seq<char> {
    resolve_from(s, 0)
}

/// Whether `t` occurs in `s` starting at position `j`.
pub open spec fn contains_at(s: Seq<char>, t: Seq<char>, j: int) -> bool {
    0 <= j && j + t.len() <= s.len() && s.subrange(j, j + t.len()) == t
}

/// Whether `t` occurs nowhere in `s`.
pub open spec fn tagfree(s: Seq<char>, t: Seq<char>) -> bool {
    forall|j: int| !contains_at(s, t, j)
}

/// Whether no character of `s` is an opening brace.
pub open spec fn brace_free(s: Seq<char>) -> bool {
    forall|j: int| 0 <= j < s.len() ==> s[j] != '{'
}

/// Whether no character of `s` is the escape character.
pub open spec fn esc_free(s: Seq<char>) -> bool {
    forall|j: int| 0 <= j < s.len() ==> s[j] != esc()
}

proof fn lemma_tagfree_skip(s: Seq<char>, t: Seq<char>, n: int)
    requires
        0 <= n <= s.len(),
        tagfree(s, t),
    ensures
        tagfree(s.skip(n), t),
{
    assert forall|j: int| !contains_at(s.skip(n), t, j) by {
        if contains_at(s.skip(n), t, j) {
            assert(s.skip(n).subrange(j, j + t.len() as int) =~= s.subrange(
                n + j,
                n + j + t.len(),
            ));
            assert(contains_at(s, t, n + j));
        }
    }
}

/// An escape-free prefix of a replacement result was already a prefix of
/// the source: every inserted piece starts with the escape character, so
/// the prefix cannot reach into one.
proof fn lemma_esc_prefix(s: Seq<char>, pat: Seq<char>, rep: Seq<char>, q: Seq<char>)
    requires
        pat.len() > 0,
        rep.len() > 0,
        rep[0] == esc(),
        esc_free(q),
        q.len() <= replace_spec(s, pat, rep).len(),
        replace_spec(s, pat, rep).take(q.len() as int) == q,
    ensures
        q.len() <= s.len(),
        s.take(q.len() as int) == q,
    decreases s.len(),
{
    let r = replace_spec(s, pat, rep);
    if q.len() == 0 {
        assert(s.take(0) =~= q);
    } else if s.len() < pat.len() {
        assert(r == s);
    } else if s.take(pat.len() as int) == pat {
        assert(r == rep + replace_spec(s.skip(pat.len() as int), pat, rep));
        assert(r.take(q.len() as int)[0] == r[0]);
        assert(q[0] == r[0]);
        assert(r[0] == rep[0]);
        assert(q[0] != esc());
        assert(false);
    } else {
        let rr = replace_spec(s.skip(1), pat, rep);
        assert(r == seq![s[0]] + rr);
        assert(r.take(q.len() as int)[0] == r[0]);
        assert(q[0] == r[0]);
        assert(r[0] == s[0]);
        assert(rr.take(q.len() - 1) =~= q.skip(1)) by {
            assert forall|m: int| 0 <= m < q.len() - 1 implies rr.take(q.len() - 1)[m] == q.skip(
                1,
            )[m] by {
                assert(rr.take(q.len() - 1)[m] == rr[m]);
                assert(r[m + 1] == rr[m]);
                assert(r.take(q.len() as int)[m + 1] == r[m + 1]);
                assert(q[m + 1] == r[m + 1]);
            }
        }
        assert(esc_free(q.skip(1))) by {
            assert forall|m: int| 0 <= m < q.skip(1).len() implies q.skip(1)[m] != esc() by {
                assert(q.skip(1)[m] == q[m + 1]);
            }
        }
        lemma_esc_prefix(s.skip(1), pat, rep, q.skip(1));
        assert(s.take(q.len() as int) =~= q) by {
            assert forall|m: int| 0 <= m < q.len() implies s.take(q.len() as int)[m] == q[m] by {
                if m == 0 {
                    assert(s[0] == q[0]);
                } else {
                    assert(s.skip(1).take(q.len() - 1)[m - 1] == q.skip(1)[m - 1]);
                    assert(s.skip(1)[m - 1] == s[m]);
                    assert(q.skip(1)[m - 1] == q[m]);
                }
            }
        }
    }
}

/// Replacement leaves no occurrence of a bracketed tag behind: not of the
/// pattern itself, and not of any other tag that the text was already free
/// of. The inserted piece starts with the escape character and contains no
/// opening brace, so no tag can overlap it.
proof fn lemma_replace_tagfree(s: Seq<char>, pat: Seq<char>, rep: Seq<char>, t: Seq<char>)
    requires
        pat.len() > 0,
        t.len() > 0,
        t[0] == '{',
        brace_free(rep),
        rep.len() > 0,
        rep[0] == esc(),
        esc_free(t),
        t == pat || tagfree(s, t),
    ensures
        tagfree(replace_spec(s, pat, rep), t),
    decreases s.len(),
{
    let r = replace_spec(s, pat, rep);
    if s.len() < pat.len() {
        assert(r == s);
        if t == pat {
            assert forall|j: int| !contains_at(r, t, j) by {
                if contains_at(r, t, j) {
                    assert(j >= 0 && j + t.len() <= s.len());
                    assert(false);
                }
            }
        }
    } else if s.take(pat.len() as int) == pat {
        let tail = s.skip(pat.len() as int);
        let rr = replace_spec(tail, pat, rep);
        assert(r == rep + rr);
        if t != pat {
            lemma_tagfree_skip(s, t, pat.len() as int);
        }
        lemma_replace_tagfree(tail, pat, rep, t);
        assert forall|j: int| !contains_at(r, t, j) by {
            if contains_at(r, t, j) {
                if j < rep.len() {
                    assert(r.subrange(j, j + t.len() as int)[0] == r[j]);
                    assert(t[0] == r[j]);
                    assert(r[j] == rep[j]);
                    assert(false);
                } else {
                    assert(r.subrange(j, j + t.len() as int) =~= rr.subrange(
                        j - rep.len(),
                        j - rep.len() + t.len(),
                    ));
                    assert(contains_at(rr, t, j - rep.len()));
                    assert(false);
                }
            }
        }
    } else {
        let rr = replace_spec(s.skip(1), pat, rep);
        assert(r == seq![s[0]] + rr);
        if t != pat {
            lemma_tagfree_skip(s, t, 1);
        }
        lemma_replace_tagfree(s.skip(1), pat, rep, t);
        assert forall|j: int| !contains_at(r, t, j) by {
            if contains_at(r, t, j) {
                if j >= 1 {
                    assert(r.subrange(j, j + t.len() as int) =~= rr.subrange(
                        j - 1,
                        j - 1 + t.len(),
                    ));
                    assert(contains_at(rr, t, j - 1));
                    assert(false);
                } else {
                    assert(j == 0);
                    assert(r.take(t.len() as int) == r.subrange(0, t.len() as int));
                    assert(r.take(t.len() as int) == t);
                    assert(r.take(t.len() as int)[0] == r[0]);
                    assert(t[0] == r[0]);
                    assert(r[0] == s[0]);
                    assert(rr.take(t.len() - 1) =~= t.skip(1)) by {
                        assert forall|m: int| 0 <= m < t.len() - 1 implies rr.take(t.len() - 1)[m]
                            == t.skip(1)[m] by {
                            assert(rr.take(t.len() - 1)[m] == rr[m]);
                            assert(r[m + 1] == rr[m]);
                            assert(r.take(t.len() as int)[m + 1] == r[m + 1]);
                            assert(t[m + 1] == r[m + 1]);
                        }
                    }
                    assert(esc_free(t.skip(1))) by {
                        assert forall|m: int| 0 <= m < t.skip(1).len() implies t.skip(1)[m]
                            != esc() by {
                            assert(t.skip(1)[m] == t[m + 1]);
                        }
                    }
                    lemma_esc_prefix(s.skip(1), pat, rep, t.skip(1));
                    assert(s.take(t.len() as int) =~= t) by {
                        assert forall|m: int| 0 <= m < t.len() implies s.take(t.len() as int)[m]
                            == t[m] by {
                            if m == 0 {
                                assert(s[0] == t[0]);
                            } else {
                                assert(s.skip(1).take(t.len() - 1)[m - 1] == t.skip(1)[m - 1]);
                                assert(s.skip(1)[m - 1] == s[m]);
                                assert(t.skip(1)[m - 1] == t[m]);
                            }
                        }
                    }
                    if t == pat {
                        assert(s.take(pat.len() as int) == pat);
                        assert(false);
                    } else {
                        assert(s.subrange(0, t.len() as int) == t);
                        assert(contains_at(s, t, 0));
                        assert(false);
                    }
                }
            }
        }
    }
}

/// Where a pattern does not occur, replacement changes nothing.
proof fn lemma_replace_noop(s: Seq<char>, pat: Seq<char>, rep: Seq<char>)
    requires
        pat.len() > 0,
        tagfree(s, pat),
    ensures
        replace_spec(s, pat, rep) == s,
    decreases s.len(),
{
    if s.len() < pat.len() {
    } else if s.take(pat.len() as int) == pat {
        assert(s.subrange(0, pat.len() as int) == pat);
        assert(contains_at(s, pat, 0));
        assert(false);
    } else {
        lemma_tagfree_skip(s, pat, 1);
        lemma_replace_noop(s.skip(1), pat, rep);
        assert(seq![s[0]] + s.skip(1) =~= s);
    }
}

/// The facts about each color table entry on which the resolver's
/// guarantees rest: keys are nonempty brace-opened and escape-free, values
/// are nonempty escape-opened and brace-free.
#[verifier::rlimit(80)]
proof fn lemma_color_facts(i: int)
    requires
        0 <= i < color_count(),
    ensures
        color_key(i).len() > 0,
        color_key(i)[0] == '{',
        esc_free(color_key(i)),
        color_val(i).len() > 0,
        color_val(i)[0] == esc(),
        brace_free(color_val(i)),
{
    reveal_with_fuel(crate::text::first_idx, 20);
    crate::text::lemma_first_idx(color_key(i), esc());
    crate::text::lemma_first_idx(color_val(i), '{');
    if i == 0 {
        assert(first_idx(color_key(0), esc()) == color_key(0).len());
        assert(first_idx(color_val(0), '{') == color_val(0).len());
    } else if i == 1 {
        assert(first_idx(color_key(1), esc()) == color_key(1).len());
        assert(first_idx(color_val(1), '{') == color_val(1).len());
    } else if i == 2 {
        assert(first_idx(color_key(2), esc()) == color_key(2).len());
        assert(first_idx(color_val(2), '{') == color_val(2).len());
    } else if i == 3 {
        assert(first_idx(color_key(3), esc()) == color_key(3).len());
        assert(first_idx(color_val(3), '{') == color_val(3).len());
    } else if i == 4 {
        assert(first_idx(color_key(4), esc()) == color_key(4).len());
        assert(first_idx(color_val(4), '{') == color_val(4).len());
    } else if i == 5 {
        assert(first_idx(color_key(5), esc()) == color_key(5).len());
        assert(first_idx(color_val(5), '{') == color_val(5).len());
    } else if i == 6 {
        assert(first_idx(color_key(6), esc()) == color_key(6).len());
        assert(first_idx(color_val(6), '{') == color_val(6).len());
    } else if i == 7 {
        assert(first_idx(color_key(7), esc()) == color_key(7).len());
        assert(first_idx(color_val(7), '{') == color_val(7).len());
    } else if i == 8 {
        assert(first_idx(color_key(8), esc()) == color_key(8).len());
        assert(first_idx(color_val(8), '{') == color_val(8).len());
    } else if i == 9 {
        assert(first_idx(color_key(9), esc()) == color_key(9).len());
        assert(first_idx(color_val(9), '{') == color_val(9).len());
    } else if i == 10 {
        assert(first_idx(color_key(10), esc()) == color_key(10).len());
        assert(first_idx(color_val(10), '{') == color_val(10).len());
    } else {
        assert(first_idx(color_key(11), esc()) == color_key(11).len());
        assert(first_idx(color_val(11), '{') == color_val(11).len());
    }
}

#[verifier::rlimit(80)]
proof fn lemma_key_shape(i: int)
    requires
        0 <= i < color_count(),
    ensures
        color_key(i).len() >= 2,
        color_key(i)[0] == '{',
        color_key(i).last() == '}',
        forall|m: int| 1 <= m < color_key(i).len() ==> color_key(i)[m] != '{',
        forall|m: int| 0 <= m < color_key(i).len() - 1 ==> color_key(i)[m] != '}',
{
    reveal_with_fuel(crate::text::first_idx, 20);
    let k = color_key(i);
    if i == 0 {
        assert(first_idx(color_key(0).skip(1), '{') == color_key(0).len() - 1);
        assert(first_idx(color_key(0), '}') == color_key(0).len() - 1);
    } else if i == 1 {
        assert(first_idx(color_key(1).skip(1), '{') == color_key(1).len() - 1);
        assert(first_idx(color_key(1), '}') == color_key(1).len() - 1);
    } else if i == 2 {
        assert(first_idx(color_key(2).skip(1), '{') == color_key(2).len() - 1);
        assert(first_idx(color_key(2), '}') == color_key(2).len() - 1);
    } else if i == 3 {
        assert(first_idx(color_key(3).skip(1), '{') == color_key(3).len() - 1);
        assert(first_idx(color_key(3), '}') == color_key(3).len() - 1);
    } else if i == 4 {
        assert(first_idx(color_key(4).skip(1), '{') == color_key(4).len() - 1);
        assert(first_idx(color_key(4), '}') == color_key(4).len() - 1);
    } else if i == 5 {
        assert(first_idx(color_key(5).skip(1), '{') == color_key(5).len() - 1);
        assert(first_idx(color_key(5), '}') == color_key(5).len() - 1);
    } else if i == 6 {
        assert(first_idx(color_key(6).skip(1), '{') == color_key(6).len() - 1);
        assert(first_idx(color_key(6), '}') == color_key(6).len() - 1);
    } else if i == 7 {
        assert(first_idx(color_key(7).skip(1), '{') == color_key(7).len() - 1);
        assert(first_idx(color_key(7), '}') == color_key(7).len() - 1);
    } else if i == 8 {
        assert(first_idx(color_key(8).skip(1), '{') == color_key(8).len() - 1);
        assert(first_idx(color_key(8), '}') == color_key(8).len() - 1);
    } else if i == 9 {
        assert(first_idx(color_key(9).skip(1), '{') == color_key(9).len() - 1);
        assert(first_idx(color_key(9), '}') == color_key(9).len() - 1);
    } else if i == 10 {
        assert(first_idx(color_key(10).skip(1), '{') == color_key(10).len() - 1);
        assert(first_idx(color_key(10), '}') == color_key(10).len() - 1);
    } else {
        assert(first_idx(color_key(11).skip(1), '{') == color_key(11).len() - 1);
        assert(first_idx(color_key(11), '}') == color_key(11).len() - 1);
    }
    crate::text::lemma_first_idx(k.skip(1), '{');
    crate::text::lemma_first_idx(k, '}');
    assert(k.skip(1)[k.len() - 2] == k[k.len() - 1]);
    assert forall|m: int| 1 <= m < k.len() implies k[m] != '{' by {
        assert(k.skip(1)[m - 1] == k[m]);
    }
}

/// The invariant on the color table's key set on which order-independence
/// of the resolution pass rests: no tag occurs inside another, distinct
/// tag. A tag opens with its only brace and closes with its only bracket,
/// so one can sit inside another only by being it.
pub proof fn lemma_no_tag_inside_another(i: int, j: int)
    requires
        0 <= i < color_count(),
        0 <= j < color_count(),
        color_key(i) != color_key(j),
    ensures
        tagfree(color_key(i), color_key(j)),
{
    lemma_key_shape(i);
    lemma_key_shape(j);
    let ki = color_key(i);
    let kj = color_key(j);
    assert forall|p: int| !contains_at(ki, kj, p) by {
        if contains_at(ki, kj, p) {
            if p >= 1 {
                assert(ki.subrange(p, p + kj.len() as int)[0] == ki[p]);
                assert(kj[0] == ki[p]);
                assert(false);
            } else {
                if kj.len() == ki.len() {
                    assert(ki.subrange(0, ki.len() as int) =~= ki);
                    assert(false);
                } else {
                    assert(ki.subrange(0, kj.len() as int)[kj.len() - 1] == ki[kj.len() - 1]);
                    assert(kj[kj.len() - 1] == ki[kj.len() - 1]);
                    assert(kj.last() == '}');
                    assert(false);
                }
            }
        }
    }
}

/// Later resolution passes cannot reintroduce a tag that the text is
/// already free of.
proof fn lemma_resolve_preserves(s: Seq<char>, i: int, t: Seq<char>)
    requires
        0 <= i <= color_count(),
        t.len() > 0,
        t[0] == '{',
        esc_free(t),
        tagfree(s, t),
    ensures
        tagfree(resolve_from(s, i), t),
    decreases color_count() - i,
{
    if i < color_count() {
        lemma_color_facts(i);
        lemma_replace_tagfree(s, color_key(i), color_val(i), t);
        lemma_resolve_preserves(replace_spec(s, color_key(i), color_val(i)), i + 1, t);
    }
}

proof fn lemma_resolve_from_kills(s: Seq<char>, i: int, k: int)
    requires
        0 <= i <= k < color_count(),
    ensures
        tagfree(resolve_from(s, i), color_key(k)),
    decreases color_count() - i,
{
    lemma_color_facts(k);
    lemma_color_facts(i);
    let s2 = replace_spec(s, color_key(i), color_val(i));
    if i == k {
        lemma_replace_tagfree(s, color_key(i), color_val(i), color_key(i));
        lemma_resolve_preserves(s2, i + 1, color_key(k));
    } else {
        lemma_resolve_from_kills(s2, i + 1, k);
    }
}

/// Color resolution is total: after resolution, no tag of the color table
/// occurs anywhere in the text.
pub proof fn lemma_resolve_total(s: Seq<char>, k: int)
    requires
        0 <= k < color_count(),
    ensures
        tagfree(resolve_spec(s), color_key(k)),
{
    lemma_resolve_from_kills(s, 0, k);
}

proof fn lemma_resolve_noop_from(s: Seq<char>, i: int)
    requires
        0 <= i <= color_count(),
        forall|k: int| 0 <= k < color_count() ==> tagfree(s, color_key(k)),
    ensures
        resolve_from(s, i) == s,
    decreases color_count() - i,
{
    if i < color_count() {
        lemma_color_facts(i);
        assert(tagfree(s, color_key(i)));
        lemma_replace_noop(s, color_key(i), color_val(i));
        lemma_resolve_noop_from(s, i + 1);
    }
}

/// Color resolution is idempotent: resolving an already resolved text
/// changes nothing.
pub proof fn lemma_resolve_idempotent(s: Seq<char>)
    ensures
        resolve_spec(resolve_spec(s)) == resolve_spec(s),
{
    let r = resolve_spec(s);
    assert forall|k: int| 0 <= k < color_count() implies tagfree(r, color_key(k)) by {
        lemma_resolve_total(s, k);
    }
    lemma_resolve_noop_from(r, 0);
}

/// The color table entry at position `i`, as string slices.
fn color_pair(i: usize) -> (r: (&'static str, &'static str))
    requires
        i < 12,
    ensures
        r.0@ == color_key(i as int),
        r.1@ == color_val(i as int),
{
    let r: (&'static str, &'static str) = match i {
        0 => ("{reset}", "\u{1b}[00m"),
        1 => ("{bold}", "\u{1b}[01m"),
        2 => ("{black}", "\u{1b}[30m"),
        3 => ("{red}", "\u{1b}[31m"),
        4 => ("{green}", "\u{1b}[32m"),
        5 => ("{yellow}", "\u{1b}[33m"),
        6 => ("{blue}", "\u{1b}[34m"),
        7 => ("{magenta}", "\u{1b}[35m"),
        8 => ("{cyan}", "\u{1b}[36m"),
        9 => ("{gray}", "\u{1b}[38;5;248m"),
        10 => ("{white}", "\u{1b}[37m"),
        _ => ("{black_on_green}", "\u{1b}[48;5;2m\u{1b}[30m"),
    };
    proof {
        reveal_strlit("{reset}");
        reveal_strlit("{bold}");
        reveal_strlit("{black}");
        reveal_strlit("{red}");
        reveal_strlit("{green}");
        reveal_strlit("{yellow}");
        reveal_strlit("{blue}");
        reveal_strlit("{magenta}");
        reveal_strlit("{cyan}");
        reveal_strlit("{gray}");
        reveal_strlit("{white}");
        reveal_strlit("{black_on_green}");
        reveal_strlit("\u{1b}[00m");
        reveal_strlit("\u{1b}[01m");
        reveal_strlit("\u{1b}[30m");
        reveal_strlit("\u{1b}[31m");
        reveal_strlit("\u{1b}[32m");
        reveal_strlit("\u{1b}[33m");
        reveal_strlit("\u{1b}[34m");
        reveal_strlit("\u{1b}[35m");
        reveal_strlit("\u{1b}[36m");
        reveal_strlit("\u{1b}[38;5;248m");
        reveal_strlit("\u{1b}[37m");
        reveal_strlit("\u{1b}[48;5;2m\u{1b}[30m");
        assert(r.0@ =~= color_key(i as int));
        assert(r.1@ =~= color_val(i as int));
    }
    r
}

/// Perform a single pass of literal substring replacement for every entry
/// of the color table.
pub fn resolve(text: &str) -> (r: String)
    ensures
        r@ == resolve_spec(text@),
{
    let mut cur = str_to_chars(text);
    let mut i: usize = 0;
    while i < 12
        invariant
            i <= 12,
            resolve_spec(text@) == resolve_from(cur@, i as int),
        decreases 12 - i,
    {
        let pair = color_pair(i);
        let kc = str_to_chars(pair.0);
        let vc = str_to_chars(pair.1);
        proof {
            assert(resolve_from(cur@, i as int) == resolve_from(
                replace_spec(cur@, color_key(i as int), color_val(i as int)),
                i + 1,
            ));
        }
        cur = replace_chars(&cur, &kc, &vc);
        i = i + 1;
    }
    chars_to_string(&cur)
}

} // verus!

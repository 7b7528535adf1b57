//! XML character-entity escaping and unescaping, as global left-to-right
//! substitutions applied in a fixed order.

use vstd::prelude::*;
use crate::search::match_at;
use crate::search::has_substring;
use crate::search::match_here;

verus! {

/// Left-to-right, non-overlapping replacement of every occurrence of `from`
/// in `s` by `to`; an empty pattern replaces nothing.
pub open spec fn replaced(s: Seq<char>, from: Seq<char>, to: Seq<char>) -> Seq<char>
    decreases s.len(),
{
    if from.len() == 0 || s.len() == 0 {
        s
    } else if s.len() >= from.len() && s.subrange(0, from.len() as int) == from {
        to + replaced(s.skip(from.len() as int), from, to)
    } else {
        seq![s[0]] + replaced(s.skip(1), from, to)
    }
}

/// Image of one character under escaping: the three markup characters
/// become entities, every other character stands unchanged.
pub open spec fn esc_char(c: char) -> Seq<char> {
    if c == '&' {
        "&amp;"@
    } else if c == '<' {
        "&lt;"@
    } else if c == '>' {
        "&gt;"@
    } else {
        seq![c]
    }
}

/// `s` with `&`, `<` and `>` escaped. Escaping `&` before the other two
/// substitutions means the entities they introduce are never re-escaped,
/// so the whole is a character-wise map.
pub open spec fn escaped(s: Seq<char>) -> Seq<char>
    decreases s.len(),
{
    if s.len() == 0 {
        Seq::empty()
    } else {
        esc_char(s[0]) + escaped(s.skip(1))
    }
}

/// `s` with the three entity substitutions undone, applied globally in
/// fixed order: `&amp;` to `&`, then `&lt;` to `<`, then `&gt;` to `>`.
pub open spec fn unescaped(s: Seq<char>) -> Seq<char> {
    replaced(replaced(replaced(s, "&amp;"@, "&"@), "&lt;"@, "<"@), "&gt;"@, ">"@)
}

/// Image of one character after the `&amp;` pass of unescaping has run over
/// escaped text: `&` is restored, `<` and `>` are still escaped.
spec fn m1_char(c: char) -> Seq<char> {
    if c == '<' {
        "&lt;"@
    } else if c == '>' {
        "&gt;"@
    } else {
        seq![c]
    }
}

/// Character-wise extension of [`m1_char`].
spec fn m1_map(s: Seq<char>) -> Seq<char>
    decreases s.len(),
{
    if s.len() == 0 {
        Seq::empty()
    } else {
        m1_char(s[0]) + m1_map(s.skip(1))
    }
}

/// Image of one character after the `&amp;` and `&lt;` passes have run:
/// only `>` is still escaped.
spec fn m2_char(c: char) -> Seq<char> {
    if c == '>' {
        "&gt;"@
    } else {
        seq![c]
    }
}

/// Character-wise extension of [`m2_char`].
spec fn m2_map(s: Seq<char>) -> Seq<char>
    decreases s.len(),
{
    if s.len() == 0 {
        Seq::empty()
    } else {
        m2_char(s[0]) + m2_map(s.skip(1))
    }
}

/// A replacement pattern cannot begin at a position whose character differs
/// from the pattern's character there.
proof fn lemma_prefix_mismatch_at(s: Seq<char>, from: Seq<char>, k: int)
    requires
        0 <= k < from.len(),
        k < s.len(),
        s[k] != from[k],
    ensures
        !(s.len() >= from.len() && s.subrange(0, from.len() as int) == from),
{
    if s.len() >= from.len() && s.subrange(0, from.len() as int) == from {
        assert(s.subrange(0, from.len() as int)[k] == s[k]);
    }
}

/// Replacement passes unchanged over a leading stretch of characters none of
/// which can start an occurrence of `from`.
proof fn lemma_replaced_skip_clean_prefix(p: Seq<char>, t: Seq<char>, from: Seq<char>, to: Seq<char>)
    requires
        from.len() >= 1,
        forall|k: int| 0 <= k < p.len() ==> p[k] != from[0],
    ensures
        replaced(p + t, from, to) == p + replaced(t, from, to),
    decreases p.len(),
{
    if p.len() == 0 {
        assert(p + t =~= t);
        assert(p + replaced(t, from, to) =~= replaced(t, from, to));
    } else {
        let s = p + t;
        assert(s[0] == p[0]);
        lemma_prefix_mismatch_at(s, from, 0);
        assert(replaced(s, from, to) == seq![s[0]] + replaced(s.skip(1), from, to));
        assert(s.skip(1) =~= p.skip(1) + t);
        lemma_replaced_skip_clean_prefix(p.skip(1), t, from, to);
        assert(seq![s[0]] + (p.skip(1) + replaced(t, from, to)) =~= p + replaced(t, from, to));
    }
}

/// Replacement rewrites a leading occurrence of `from` and goes on behind it.
proof fn lemma_replaced_take_prefix(t: Seq<char>, from: Seq<char>, to: Seq<char>)
    requires
        from.len() >= 1,
    ensures
        replaced(from + t, from, to) == to + replaced(t, from, to),
{
    let s = from + t;
    assert(s.subrange(0, from.len() as int) =~= from);
    assert(s.skip(from.len() as int) =~= t);
}

/// An occurrence of `p` in the tail of `s` is an occurrence in `s`.
proof fn lemma_has_substring_skip(s: Seq<char>, p: Seq<char>)
    requires
        s.len() >= 1,
        has_substring(s.skip(1), p),
    ensures
        has_substring(s, p),
{
    let i = choose|i: int| match_at(s.skip(1), p, i);
    assert(s.subrange(i + 1, i + 1 + p.len()) =~= s.skip(1).subrange(i, i + p.len()));
    assert(match_at(s, p, i + 1));
}

/// Undoing the `&amp;` substitution on escaped text restores exactly the
/// ampersands: the result is the character-wise map [`m1_map`].
proof fn lemma_unamp_escaped(s: Seq<char>)
    ensures
        replaced(escaped(s), "&amp;"@, "&"@) == m1_map(s),
    decreases s.len(),
{
    reveal_strlit("&amp;");
    reveal_strlit("&lt;");
    reveal_strlit("&gt;");
    reveal_strlit("&");
    if s.len() == 0 {
    } else {
        let c = s[0];
        let rest = s.skip(1);
        let e = escaped(rest);
        lemma_unamp_escaped(rest);
        assert(escaped(s) == esc_char(c) + e);
        if c == '&' {
            lemma_replaced_take_prefix(e, "&amp;"@, "&"@);
            assert("&"@ + m1_map(rest) =~= m1_char(c) + m1_map(rest));
        } else if c == '<' {
            let u = "&lt;"@ + e;
            assert(u[1] == 'l');
            lemma_prefix_mismatch_at(u, "&amp;"@, 1);
            assert(replaced(u, "&amp;"@, "&"@) == seq![u[0]] + replaced(
                u.skip(1),
                "&amp;"@,
                "&"@,
            ));
            assert(u.skip(1) =~= "&lt;"@.skip(1) + e);
            assert(forall|k: int|
                0 <= k < "&lt;"@.skip(1).len() ==> "&lt;"@.skip(1)[k] != '&');
            lemma_replaced_skip_clean_prefix("&lt;"@.skip(1), e, "&amp;"@, "&"@);
            assert(seq![u[0]] + ("&lt;"@.skip(1) + replaced(e, "&amp;"@, "&"@)) =~= "&lt;"@
                + m1_map(rest));
        } else if c == '>' {
            let u = "&gt;"@ + e;
            assert(u[1] == 'g');
            lemma_prefix_mismatch_at(u, "&amp;"@, 1);
            assert(replaced(u, "&amp;"@, "&"@) == seq![u[0]] + replaced(
                u.skip(1),
                "&amp;"@,
                "&"@,
            ));
            assert(u.skip(1) =~= "&gt;"@.skip(1) + e);
            assert(forall|k: int|
                0 <= k < "&gt;"@.skip(1).len() ==> "&gt;"@.skip(1)[k] != '&');
            lemma_replaced_skip_clean_prefix("&gt;"@.skip(1), e, "&amp;"@, "&"@);
            assert(seq![u[0]] + ("&gt;"@.skip(1) + replaced(e, "&amp;"@, "&"@)) =~= "&gt;"@
                + m1_map(rest));
        } else {
            lemma_replaced_skip_clean_prefix(seq![c], e, "&amp;"@, "&"@);
            assert(seq![c] + e =~= esc_char(c) + e);
            assert(seq![c] + m1_map(rest) =~= m1_char(c) + m1_map(rest));
        }
    }
}

/// Where the image of `t` under [`m1_map`] starts with a character other
/// than `&`, that character is literal: `t` itself starts with it.
proof fn lemma_m1_map_plain_head(t: Seq<char>)
    requires
        m1_map(t).len() > 0,
        m1_map(t)[0] != '&',
    ensures
        t.len() > 0,
        t[0] == m1_map(t)[0],
        m1_map(t).skip(1) == m1_map(t.skip(1)),
{
    reveal_strlit("&lt;");
    reveal_strlit("&gt;");
    assert(t.len() > 0);
    assert(m1_map(t) == m1_char(t[0]) + m1_map(t.skip(1)));
    if t[0] == '<' || t[0] == '>' {
        assert(m1_map(t)[0] == '&');
    } else {
        assert(m1_char(t[0]) =~= seq![t[0]]);
        assert(m1_map(t).skip(1) =~= m1_map(t.skip(1)));
    }
}

/// Where the image of `t` under [`m2_map`] starts with a character other
/// than `&`, that character is literal: `t` itself starts with it.
proof fn lemma_m2_map_plain_head(t: Seq<char>)
    requires
        m2_map(t).len() > 0,
        m2_map(t)[0] != '&',
    ensures
        t.len() > 0,
        t[0] == m2_map(t)[0],
        m2_map(t).skip(1) == m2_map(t.skip(1)),
{
    reveal_strlit("&gt;");
    assert(t.len() > 0);
    assert(m2_map(t) == m2_char(t[0]) + m2_map(t.skip(1)));
    if t[0] == '>' {
        assert(m2_map(t)[0] == '&');
    } else {
        assert(m2_char(t[0]) =~= seq![t[0]]);
        assert(m2_map(t).skip(1) =~= m2_map(t.skip(1)));
    }
}

/// Undoing the `&lt;` substitution on [`m1_map`] output restores exactly the
/// escaped `<` characters, provided the source text never spelled the entity
/// `&lt;` itself.
proof fn lemma_unlt_m1(s: Seq<char>)
    requires
        !has_substring(s, "&lt;"@),
    ensures
        replaced(m1_map(s), "&lt;"@, "<"@) == m2_map(s),
    decreases s.len(),
{
    reveal_strlit("&lt;");
    reveal_strlit("&gt;");
    reveal_strlit("<");
    if s.len() == 0 {
    } else {
        let c = s[0];
        let rest = s.skip(1);
        let e = m1_map(rest);
        assert(!has_substring(rest, "&lt;"@)) by {
            if has_substring(rest, "&lt;"@) {
                lemma_has_substring_skip(s, "&lt;"@);
            }
        }
        lemma_unlt_m1(rest);
        assert(m1_map(s) == m1_char(c) + e);
        if c == '<' {
            lemma_replaced_take_prefix(e, "&lt;"@, "<"@);
            assert("<"@ + m2_map(rest) =~= m2_char(c) + m2_map(rest));
        } else if c == '>' {
            let u = "&gt;"@ + e;
            assert(u[1] == 'g');
            lemma_prefix_mismatch_at(u, "&lt;"@, 1);
            assert(replaced(u, "&lt;"@, "<"@) == seq![u[0]] + replaced(u.skip(1), "&lt;"@, "<"@));
            assert(u.skip(1) =~= "&gt;"@.skip(1) + e);
            assert(forall|k: int|
                0 <= k < "&gt;"@.skip(1).len() ==> "&gt;"@.skip(1)[k] != '&');
            lemma_replaced_skip_clean_prefix("&gt;"@.skip(1), e, "&lt;"@, "<"@);
            assert(seq![u[0]] + ("&gt;"@.skip(1) + replaced(e, "&lt;"@, "<"@)) =~= "&gt;"@
                + m2_map(rest));
        } else if c == '&' {
            let u = seq!['&'] + e;
            assert(u.skip(1) =~= e);
            if u.len() >= 4 && u.subrange(0, 4) == "&lt;"@ {
                assert(u[1] == 'l' && u[2] == 't' && u[3] == ';') by {
                    assert(u.subrange(0, 4)[1] == u[1]);
                    assert(u.subrange(0, 4)[2] == u[2]);
                    assert(u.subrange(0, 4)[3] == u[3]);
                }
                assert(e[0] == 'l' && e[1] == 't' && e[2] == ';');
                lemma_m1_map_plain_head(rest);
                let r1 = rest.skip(1);
                assert(m1_map(r1)[0] == 't') by {
                    assert(m1_map(rest).skip(1)[0] == e[1]);
                }
                lemma_m1_map_plain_head(r1);
                let r2 = r1.skip(1);
                assert(m1_map(r2)[0] == ';') by {
                    assert(m1_map(r1).skip(1)[0] == m1_map(rest).skip(1).skip(1)[0]);
                    assert(m1_map(rest).skip(1).skip(1)[0] == e[2]);
                }
                lemma_m2_map_plain_head(r2);
                lemma_m1_map_plain_head(r2);
                assert(s[1] == 'l' && s[2] == 't' && s[3] == ';') by {
                    assert(rest[0] == 'l');
                    assert(r1[0] == 't');
                    assert(r2[0] == ';');
                }
                assert(s.subrange(0, 4) =~= "&lt;"@);
                assert(match_at(s, "&lt;"@, 0));
                assert(false);
            }
            assert(replaced(u, "&lt;"@, "<"@) == seq![u[0]] + replaced(e, "&lt;"@, "<"@));
            assert(seq![u[0]] + m2_map(rest) =~= m2_char(c) + m2_map(rest));
        } else {
            lemma_replaced_skip_clean_prefix(seq![c], e, "&lt;"@, "<"@);
            assert(seq![c] + e =~= m1_char(c) + e);
            assert(seq![c] + m2_map(rest) =~= m2_char(c) + m2_map(rest));
        }
    }
}

/// Undoing the `&gt;` substitution on [`m2_map`] output restores the source
/// text, provided the source never spelled the entity `&gt;` itself.
proof fn lemma_ungt_m2(s: Seq<char>)
    requires
        !has_substring(s, "&gt;"@),
    ensures
        replaced(m2_map(s), "&gt;"@, ">"@) == s,
    decreases s.len(),
{
    reveal_strlit("&gt;");
    reveal_strlit(">");
    if s.len() == 0 {
    } else {
        let c = s[0];
        let rest = s.skip(1);
        let e = m2_map(rest);
        assert(!has_substring(rest, "&gt;"@)) by {
            if has_substring(rest, "&gt;"@) {
                lemma_has_substring_skip(s, "&gt;"@);
            }
        }
        lemma_ungt_m2(rest);
        assert(m2_map(s) == m2_char(c) + e);
        if c == '>' {
            lemma_replaced_take_prefix(e, "&gt;"@, ">"@);
            assert(">"@ + rest =~= s);
        } else if c == '&' {
            let u = seq!['&'] + e;
            assert(u.skip(1) =~= e);
            if u.len() >= 4 && u.subrange(0, 4) == "&gt;"@ {
                assert(u[1] == 'g' && u[2] == 't' && u[3] == ';') by {
                    assert(u.subrange(0, 4)[1] == u[1]);
                    assert(u.subrange(0, 4)[2] == u[2]);
                    assert(u.subrange(0, 4)[3] == u[3]);
                }
                assert(e[0] == 'g' && e[1] == 't' && e[2] == ';');
                lemma_m2_map_plain_head(rest);
                let r1 = rest.skip(1);
                assert(m2_map(r1)[0] == 't') by {
                    assert(m2_map(rest).skip(1)[0] == e[1]);
                }
                lemma_m2_map_plain_head(r1);
                let r2 = r1.skip(1);
                assert(m2_map(r2)[0] == ';') by {
                    assert(m2_map(r1).skip(1)[0] == m2_map(rest).skip(1).skip(1)[0]);
                    assert(m2_map(rest).skip(1).skip(1)[0] == e[2]);
                }
                lemma_m2_map_plain_head(r2);
                assert(s[1] == 'g' && s[2] == 't' && s[3] == ';') by {
                    assert(rest[0] == 'g');
                    assert(r1[0] == 't');
                    assert(r2[0] == ';');
                }
                assert(s.subrange(0, 4) =~= "&gt;"@);
                assert(match_at(s, "&gt;"@, 0));
                assert(false);
            }
            assert(replaced(u, "&gt;"@, ">"@) == seq![u[0]] + replaced(e, "&gt;"@, ">"@));
            assert(seq![u[0]] + rest =~= s);
        } else {
            lemma_replaced_skip_clean_prefix(seq![c], e, "&gt;"@, ">"@);
            assert(seq![c] + e =~= m2_char(c) + e);
            assert(seq![c] + rest =~= s);
        }
    }
}

/// Escaping then unescaping restores the original text. The law holds of
/// every text that does not itself spell one of the entities `&lt;` or
/// `&gt;`: on such a text the later unescape passes, which run globally over
/// the whole string, would also rewrite the literal spelling.
pub proof fn lemma_escape_unescape_round_trip(s: Seq<char>)
    requires
        !has_substring(s, "&lt;"@),
        !has_substring(s, "&gt;"@),
    ensures
        unescaped(escaped(s)) == s,
{
    lemma_unamp_escaped(s);
    lemma_unlt_m1(s);
    lemma_ungt_m2(s);
}

/// Replace every occurrence of `from` in `s` by `to`, left to right and
/// without overlap.
pub fn replace_all(s: &str, from: &str, to: &str) -> (r: String)
    requires
        from@.len() >= 1,
    ensures
        r@ == replaced(s@, from@, to@),
{
    let slen = s.unicode_len();
    let flen = from.unicode_len();
    let mut out = String::new();
    let mut i: usize = 0;
    proof {
        assert(s@.skip(0) =~= s@);
        assert(Seq::<char>::empty() + replaced(s@, from@, to@) =~= replaced(s@, from@, to@));
    }
    while i < slen
        invariant
            i <= slen,
            slen == s@.len(),
            flen == from@.len(),
            flen >= 1,
            out@ + replaced(s@.skip(i as int), from@, to@) == replaced(s@, from@, to@),
        decreases slen - i,
    {
        let ghost t = s@.skip(i as int);
        let ghost out0 = out@;
        if flen <= slen - i && match_here(s, from, i) {
            out.append(to);
            proof {
                assert(t.subrange(0, flen as int) =~= s@.subrange(i as int, i + flen));
                assert(t.skip(flen as int) =~= s@.skip(i + flen));
                assert(replaced(t, from@, to@) == to@ + replaced(
                    s@.skip(i + flen),
                    from@,
                    to@,
                ));
                assert(out0 + to@ + replaced(s@.skip(i + flen), from@, to@) =~= out0 + replaced(
                    t,
                    from@,
                    to@,
                ));
            }
            i += flen;
        } else {
            out.append(s.substring_char(i, i + 1));
            proof {
                assert(!(t.len() >= flen && t.subrange(0, flen as int) == from@)) by {
                    if t.len() >= flen && t.subrange(0, flen as int) == from@ {
                        assert(s@.subrange(i as int, i + flen) =~= t.subrange(0, flen as int));
                        assert(match_at(s@, from@, i as int));
                    }
                }
                assert(replaced(t, from@, to@) == seq![t[0]] + replaced(t.skip(1), from@, to@));
                assert(t.skip(1) =~= s@.skip(i + 1));
                assert(s@.subrange(i as int, i + 1) =~= seq![t[0]]);
                assert(out0 + s@.subrange(i as int, i + 1) + replaced(s@.skip(i + 1), from@, to@)
                    =~= out0 + replaced(t, from@, to@));
            }
            i += 1;
        }
    }
    proof {
        assert(s@.skip(slen as int) =~= Seq::<char>::empty());
        assert(out@ + Seq::<char>::empty() =~= out@);
    }
    out
}

/// Escape `&`, `<` and `>` in `text` for embedding in XML: `&` first, then
/// `<`, then `>`.
pub fn escape(text: &str) -> (r: String)
    ensures
        r@ == escaped(text@),
{
    let slen = text.unicode_len();
    let mut out = String::new();
    let mut i: usize = 0;
    proof {
        assert(text@.skip(0) =~= text@);
        assert(Seq::<char>::empty() + escaped(text@) =~= escaped(text@));
    }
    while i < slen
        invariant
            i <= slen,
            slen == text@.len(),
            out@ + escaped(text@.skip(i as int)) == escaped(text@),
        decreases slen - i,
    {
        let ghost t = text@.skip(i as int);
        let ghost out0 = out@;
        let c = text.get_char(i);
        if c == '&' {
            out.append("&amp;");
        } else if c == '<' {
            out.append("&lt;");
        } else if c == '>' {
            out.append("&gt;");
        } else {
            out.append(text.substring_char(i, i + 1));
            proof {
                assert(text@.subrange(i as int, i + 1) =~= seq![c]);
            }
        }
        proof {
            assert(t[0] == c);
            assert(t.skip(1) =~= text@.skip(i + 1));
            assert(escaped(t) == esc_char(c) + escaped(text@.skip(i + 1)));
            assert(out0 + esc_char(c) + escaped(text@.skip(i + 1)) =~= out0 + escaped(t));
        }
        i += 1;
    }
    proof {
        assert(text@.skip(slen as int) =~= Seq::<char>::empty());
        assert(out@ + Seq::<char>::empty() =~= out@);
    }
    out
}

/// Undo the three entity substitutions in `text`, in the fixed order
/// `&amp;`, `&lt;`, `&gt;`.
pub fn unescape(text: &str) -> (r: String)
    ensures
        r@ == unescaped(text@),
{
    proof {
        reveal_strlit("&amp;");
        reveal_strlit("&lt;");
        reveal_strlit("&gt;");
    }
    let a = replace_all(text, "&amp;", "&");
    let b = replace_all(a.as_str(), "&lt;", "<");
    let c = replace_all(b.as_str(), "&gt;", ">");
    c
}

} // verus!

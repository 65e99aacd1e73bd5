//! What a second import rewrite does to a rewritten module: nothing. Each
//! replacement step clears the occurrences of its own pattern without
//! making one of an earlier pattern, so the rewritten text holds none of
//! the patterns that the rewrite looks for.

use vstd::prelude::*;

use crate::worker::{
    absent, entry_families, entry_quotes, lemma_family_names, lemma_replace_absent, leads,
    mock_families, occurs_at, quotes, repeat, replace_all, rewrite_families, rewrite_leads,
    rewrite_quotes, rewrite_spacers, rewrite_spec, spacers, trim_slashes,
};

verus! {

/// `a` and `b` agree on every index both have: one is a prefix of the other.
pub open spec fn clash(a: Seq<char>, b: Seq<char>) -> bool {
    forall|j: int| 0 <= j < a.len() && j < b.len() ==> a[j] == b[j]
}

/// `s` begins with `p`.
pub open spec fn starts_with(s: Seq<char>, p: Seq<char>) -> bool {
    p.len() <= s.len() && forall|j: int| 0 <= j < p.len() ==> s[j] == p[j]
}

/// No occurrence of `m` can begin inside an inserted `t`, whatever follows.
pub open spec fn no_start_within(t: Seq<char>, m: Seq<char>) -> bool {
    forall|i: int| 0 <= i < t.len() ==> !clash(#[trigger] t.skip(i), m)
}

/// No occurrence of `m` begun before an inserted `t` can run into it.
pub open spec fn no_tail_prefix(t: Seq<char>, m: Seq<char>) -> bool {
    forall|k: int| 1 <= k < m.len() ==> !clash(t, #[trigger] m.skip(k))
}

proof fn lemma_absent_skip(s: Seq<char>, m: Seq<char>, k: int)
    requires
        0 <= k <= s.len(),
        absent(s, m),
    ensures
        absent(s.skip(k), m),
{
    assert forall|i: int| !#[trigger] occurs_at(s.skip(k), m, i) by {
        if occurs_at(s.skip(k), m, i) {
            assert(s.skip(k).subrange(i, i + m.len() as int) =~= s.subrange(i + k, i + k + m.len() as int));
            assert(occurs_at(s, m, i + k));
        }
    }
}

/// What the rewritten text begins with past the first `k` characters of
/// `m`, the text before the rewrite began with already.
proof fn lemma_prefix_back(s: Seq<char>, n: Seq<char>, t: Seq<char>, m: Seq<char>, k: int)
    requires
        n.len() > 0,
        1 <= k <= m.len(),
        no_tail_prefix(t, m),
        starts_with(replace_all(s, n, t), m.skip(k)),
    ensures
        starts_with(s, m.skip(k)),
    decreases s.len(),
{
    if k < m.len() && s.len() >= n.len() {
        let r = replace_all(s, n, t);
        if s.take(n.len() as int) == n {
            let r2 = replace_all(s.skip(n.len() as int), n, t);
            assert(r == t + r2);
            assert(clash(t, m.skip(k))) by {
                assert forall|j: int| 0 <= j < t.len() && j < m.skip(k).len() implies t[j] == m.skip(k)[j] by {
                    assert((t + r2)[j] == t[j]);
                }
            }
            assert(!clash(t, m.skip(k)));
        } else {
            let s1 = s.skip(1);
            let r1 = replace_all(s1, n, t);
            assert(r == seq![s[0]] + r1);
            assert(starts_with(r1, m.skip(k + 1))) by {
                assert forall|j: int| 0 <= j < m.skip(k + 1).len() implies r1[j] == m.skip(k + 1)[j] by {
                    assert(r[j + 1] == r1[j]);
                    assert(m.skip(k)[j + 1] == m.skip(k + 1)[j]);
                }
            }
            lemma_prefix_back(s1, n, t, m, k + 1);
            assert forall|j: int| 0 <= j < m.skip(k).len() implies s[j] == m.skip(k)[j] by {
                if j == 0 {
                    assert(r[0] == s[0]);
                } else {
                    assert(s1[j - 1] == s[j]);
                    assert(m.skip(k)[j] == m.skip(k + 1)[j - 1]);
                }
            }
        }
    }
}

/// A replacement of `n` by `t` leaves no occurrence of `m`, when `m` is
/// `n` itself or did not occur before, and `t` can neither hold the start
/// of an occurrence of `m` nor continue one.
pub proof fn lemma_replace_clears(s: Seq<char>, n: Seq<char>, t: Seq<char>, m: Seq<char>)
    requires
        n.len() > 0,
        m.len() > 0,
        no_start_within(t, m),
        no_tail_prefix(t, m),
        m == n || absent(s, m),
    ensures
        absent(replace_all(s, n, t), m),
    decreases s.len(),
{
    let r = replace_all(s, n, t);
    if s.len() < n.len() {
        assert forall|i: int| !#[trigger] occurs_at(r, m, i) by {
            if m == n {
                assert(r == s);
            }
        }
    } else if s.take(n.len() as int) == n {
        let s2 = s.skip(n.len() as int);
        if m != n {
            lemma_absent_skip(s, m, n.len() as int);
        }
        lemma_replace_clears(s2, n, t, m);
        let r2 = replace_all(s2, n, t);
        assert(r == t + r2);
        assert forall|i: int| !#[trigger] occurs_at(r, m, i) by {
            if occurs_at(r, m, i) {
                if i < t.len() {
                    assert(clash(t.skip(i), m)) by {
                        assert forall|j: int| 0 <= j < t.skip(i).len() && j < m.len() implies t.skip(i)[j] == m[j] by {
                            assert(r.subrange(i, i + m.len() as int)[j] == r[i + j]);
                            assert(r[i + j] == t[i + j]);
                        }
                    }
                    assert(!clash(t.skip(i), m));
                } else {
                    assert(r2.subrange(i - t.len(), i - t.len() + m.len() as int) =~= r.subrange(i, i + m.len() as int));
                    assert(occurs_at(r2, m, i - t.len()));
                }
            }
        }
    } else {
        let s1 = s.skip(1);
        if m != n {
            lemma_absent_skip(s, m, 1);
        }
        lemma_replace_clears(s1, n, t, m);
        let r1 = replace_all(s1, n, t);
        assert(r == seq![s[0]] + r1);
        assert forall|i: int| !#[trigger] occurs_at(r, m, i) by {
            if occurs_at(r, m, i) {
                if i == 0 {
                    assert forall|j: int| 0 <= j < m.len() implies r[j] == m[j] by {
                        assert(r.subrange(0, m.len() as int)[j] == r[j]);
                    }
                    if m.len() > 1 {
                        assert(starts_with(r1, m.skip(1))) by {
                            assert forall|j: int| 0 <= j < m.skip(1).len() implies r1[j] == m.skip(1)[j] by {
                                assert(r[j + 1] == r1[j]);
                            }
                        }
                        lemma_prefix_back(s1, n, t, m, 1);
                    }
                    assert(s.subrange(0, m.len() as int) =~= m) by {
                        assert forall|j: int| 0 <= j < m.len() implies s[j] == m[j] by {
                            if j == 0 {
                                assert(r[0] == s[0]);
                            } else {
                                assert(s1[j - 1] == s[j]);
                                assert(m.skip(1)[j - 1] == m[j]);
                            }
                        }
                    }
                    assert(occurs_at(s, m, 0));
                    if m == n {
                        assert(s.take(n.len() as int) =~= s.subrange(0, m.len() as int));
                    }
                } else {
                    assert(r1.subrange(i - 1, i - 1 + m.len() as int) =~= r.subrange(i, i + m.len() as int));
                    assert(occurs_at(r1, m, i - 1));
                }
            }
        }
    }
}

/// The characters an occurrence of an import pattern begins with.
pub open spec fn fi_char(c: char) -> bool {
    c == 'f' || c == 'i'
}

/// A quote a specifier sits in.
pub open spec fn is_quote(c: char) -> bool {
    c == '"' || c == '\''
}

/// From index `from` on, every `f` or `i` of `s` is an `i` followed by `t`.
pub open spec fn fi_then_t(s: Seq<char>, from: int) -> bool {
    forall|j: int| from <= j < s.len() && fi_char(#[trigger] s[j]) ==> j + 1 < s.len() && s[j + 1] == 't'
}

/// No `.` in `s`.
pub open spec fn no_dot(s: Seq<char>) -> bool {
    forall|j: int| 0 <= j < s.len() ==> #[trigger] s[j] != '.'
}

/// No quote in `s`.
pub open spec fn no_quote(s: Seq<char>) -> bool {
    forall|j: int| 0 <= j < s.len() ==> !is_quote(#[trigger] s[j])
}

/// `s` ends in a quote and holds no other.
pub open spec fn quote_last(s: Seq<char>) -> bool {
    &&& s.len() >= 1
    &&& is_quote(s[s.len() - 1])
    &&& forall|j: int| 0 <= j < s.len() - 1 ==> !is_quote(#[trigger] s[j])
}

/// A run of `../`: dots and slashes only.
pub open spec fn up_plain(up: Seq<char>) -> bool {
    forall|j: int| 0 <= j < up.len() ==> #[trigger] up[j] == '.' || up[j] == '/'
}

/// A run of `../` that climbs at least once.
pub open spec fn up_ok(up: Seq<char>) -> bool {
    up_plain(up) && up.len() >= 1 && up[0] == '.'
}

/// A specifier family as the rewrite matches it.
pub open spec fn family(fi: int) -> Seq<char> {
    trim_slashes(mock_families()[fi])
}

/// What the family names share that the proofs need.
pub open spec fn family_ok(f: Seq<char>) -> bool {
    &&& f.len() >= 3
    &&& (f[0] == 'l' || f[0] == '@')
    &&& fi_then_t(f, 0)
    &&& no_dot(f)
    &&& no_quote(f)
    &&& f[f.len() - 1] != 's'
}

/// What the keywords share that the proofs need.
pub open spec fn lead_ok(l: Seq<char>) -> bool {
    &&& l.len() >= 2
    &&& fi_char(l[0])
    &&& (l[1] == 'r' || l[1] == 'm')
    &&& fi_then_t(l, 1)
    &&& no_dot(l)
    &&& no_quote(l)
}

/// The pattern of the first rewrite stage for family `fi`, quote `qi`,
/// keyword `li` and spacer `si`.
pub open spec fn bare_needle(fi: int, qi: int, li: int, si: int) -> Seq<char> {
    leads()[li] + spacers()[si] + seq![quotes()[qi]] + family(fi)
}

/// What the first stage puts in its place.
pub open spec fn bare_target(fi: int, qi: int, li: int, si: int, up: Seq<char>) -> Seq<char> {
    leads()[li] + spacers()[si] + seq![quotes()[qi]] + up + family(fi)
}

/// The pattern of the second rewrite stage for family `fi` and quote `qi`.
pub open spec fn entry_needle(fi: int, qi: int, up: Seq<char>) -> Seq<char> {
    up + family(fi) + seq![quotes()[qi]]
}

/// What the second stage puts in its place.
pub open spec fn entry_target(fi: int, qi: int, up: Seq<char>) -> Seq<char> {
    up + family(fi) + seq!['.', 'j', 's', quotes()[qi]]
}

/// Indices of a family, quote, keyword and spacer.
pub open spec fn bare_index(fi: int, qi: int, li: int, si: int) -> bool {
    0 <= fi < 4 && 0 <= qi < 2 && 0 <= li < 2 && 0 <= si < 3
}

proof fn lemma_family_facts(fi: int)
    requires
        0 <= fi < 4,
    ensures
        family_ok(family(fi)),
{
    lemma_family_names();
    let f = family(fi);
    assert forall|j: int| 0 <= j < f.len() && fi_char(#[trigger] f[j]) implies j + 1 < f.len() && f[j + 1] == 't' by {
    }
}

proof fn lemma_lead_facts(li: int)
    requires
        0 <= li < 2,
    ensures
        lead_ok(leads()[li]),
        leads()[0][0] != leads()[1][0],
{
    reveal_strlit("from");
    reveal_strlit("import");
}

proof fn lemma_spacer_facts(si: int)
    requires
        0 <= si < 3,
    ensures
        spacers()[si].len() <= 1,
        forall|j: int| 0 <= j < spacers()[si].len() ==> #[trigger] spacers()[si][j] == ' ' || spacers()[si][j] == '(',
        si == 0 <==> spacers()[si].len() == 0,
        si == 1 ==> spacers()[si][0] == ' ',
        si == 2 ==> spacers()[si][0] == '(',
{
    reveal_strlit("");
    reveal_strlit(" ");
    reveal_strlit("(");
}

proof fn lemma_fit_concat(a: Seq<char>, b: Seq<char>, from: int)
    requires
        0 <= from,
        fi_then_t(a, from),
        fi_then_t(b, 0),
    ensures
        fi_then_t(a + b, from),
{
    let c = a + b;
    assert forall|j: int| from <= j < c.len() && fi_char(#[trigger] c[j]) implies j + 1 < c.len() && c[j + 1] == 't' by {
        if j < a.len() {
            assert(c[j] == a[j]);
            assert(c[j + 1] == a[j + 1]);
        } else {
            assert(c[j] == b[j - a.len()]);
            assert(c[j + 1] == b[j + 1 - a.len()]);
        }
    }
}

proof fn lemma_plain_pieces(fi: int, qi: int, si: int, up: Seq<char>)
    requires
        0 <= fi < 4,
        0 <= qi < 2,
        0 <= si < 3,
        up_plain(up),
    ensures
        fi_then_t(spacers()[si], 0),
        fi_then_t(seq![quotes()[qi]], 0),
        fi_then_t(up, 0),
        fi_then_t(family(fi), 0),
        fi_then_t(seq!['.', 'j', 's', quotes()[qi]], 0),
        no_dot(spacers()[si]),
        no_dot(seq![quotes()[qi]]),
        no_quote(up),
        is_quote(quotes()[qi]),
        family_ok(family(fi)),
{
    lemma_spacer_facts(si);
    lemma_family_facts(fi);
    let js = seq!['.', 'j', 's', quotes()[qi]];
    assert forall|j: int| 0 <= j < js.len() && fi_char(#[trigger] js[j]) implies j + 1 < js.len() && js[j + 1] == 't' by {
    }
}

proof fn lemma_bare_needle_facts(fi: int, qi: int, li: int, si: int)
    requires
        bare_index(fi, qi, li, si),
    ensures
        ({
            let m = bare_needle(fi, qi, li, si);
            &&& m.len() >= 5
            &&& fi_char(m[0])
            &&& (m[1] == 'r' || m[1] == 'm')
            &&& fi_then_t(m, 1)
            &&& no_dot(m)
        }),
{
    lemma_lead_facts(li);
    lemma_plain_pieces(fi, qi, si, Seq::empty());
    let l = leads()[li];
    let a = l + spacers()[si];
    let b = a + seq![quotes()[qi]];
    let m = b + family(fi);
    lemma_fit_concat(l, spacers()[si], 1);
    lemma_fit_concat(a, seq![quotes()[qi]], 1);
    lemma_fit_concat(b, family(fi), 1);
    assert(m[0] == l[0] && m[1] == l[1]);
    assert forall|j: int| 0 <= j < m.len() implies #[trigger] m[j] != '.' by {
        if j < l.len() {
            assert(m[j] == l[j]);
        } else if j < a.len() {
            assert(m[j] == spacers()[si][j - l.len()]);
        } else if j < b.len() {
            assert(m[j] == quotes()[qi]);
        } else {
            assert(m[j] == family(fi)[j - b.len()]);
        }
    }
}

proof fn lemma_bare_target_facts(fi: int, qi: int, li: int, si: int, up: Seq<char>)
    requires
        bare_index(fi, qi, li, si),
        up_plain(up),
    ensures
        ({
            let t = bare_target(fi, qi, li, si, up);
            &&& t.len() >= 5
            &&& fi_char(t[0])
            &&& (t[1] == 'r' || t[1] == 'm')
            &&& fi_then_t(t, 1)
        }),
{
    lemma_lead_facts(li);
    lemma_plain_pieces(fi, qi, si, up);
    let l = leads()[li];
    let a = l + spacers()[si];
    let b = a + seq![quotes()[qi]];
    let c = b + up;
    let t = c + family(fi);
    lemma_fit_concat(l, spacers()[si], 1);
    lemma_fit_concat(a, seq![quotes()[qi]], 1);
    lemma_fit_concat(b, up, 1);
    lemma_fit_concat(c, family(fi), 1);
    assert(t[0] == l[0] && t[1] == l[1]);
}

proof fn lemma_entry_target_facts(fi: int, qi: int, up: Seq<char>)
    requires
        0 <= fi < 4,
        0 <= qi < 2,
        up_plain(up),
    ensures
        ({
            let t = entry_target(fi, qi, up);
            &&& t.len() >= 4
            &&& fi_then_t(t, 0)
            &&& quote_last(t)
            &&& t[t.len() - 2] == 's'
            &&& (up_ok(up) ==> t[0] == '.')
        }),
{
    lemma_plain_pieces(fi, qi, 0, up);
    let f = family(fi);
    let js = seq!['.', 'j', 's', quotes()[qi]];
    let a = up + f;
    let t = a + js;
    lemma_fit_concat(up, f, 0);
    lemma_fit_concat(a, js, 0);
    assert forall|j: int| 0 <= j < t.len() - 1 implies !is_quote(#[trigger] t[j]) by {
        if j < up.len() {
            assert(t[j] == up[j]);
        } else if j < a.len() {
            assert(t[j] == f[j - up.len()]);
        } else {
            assert(t[j] == js[j - a.len()]);
        }
    }
    assert(t[t.len() - 1] == js[3]);
    assert(t[t.len() - 2] == js[2]);
    if up_ok(up) {
        assert(t[0] == up[0]);
    }
}

proof fn lemma_entry_needle_facts(fi: int, qi: int, up: Seq<char>)
    requires
        0 <= fi < 4,
        0 <= qi < 2,
        up_plain(up),
    ensures
        ({
            let m = entry_needle(fi, qi, up);
            &&& m.len() >= 4
            &&& quote_last(m)
            &&& m[m.len() - 2] != 's'
        }),
{
    lemma_plain_pieces(fi, qi, 0, up);
    let f = family(fi);
    let a = up + f;
    let m = a + seq![quotes()[qi]];
    assert forall|j: int| 0 <= j < m.len() - 1 implies !is_quote(#[trigger] m[j]) by {
        if j < up.len() {
            assert(m[j] == up[j]);
        } else {
            assert(m[j] == f[j - up.len()]);
        }
    }
    assert(m[m.len() - 2] == f[f.len() - 1]);
}

/// Two first-stage targets and patterns part within their first few
/// characters: a different keyword, spacer or quote, or the `../` where
/// the pattern has its family.
proof fn lemma_bare_heads_differ(
    fa: int,
    qa: int,
    la: int,
    sa: int,
    fb: int,
    qb: int,
    lb: int,
    sb: int,
    up: Seq<char>,
)
    requires
        bare_index(fa, qa, la, sa),
        bare_index(fb, qb, lb, sb),
        up_ok(up),
    ensures
        !clash(bare_target(fa, qa, la, sa, up), bare_needle(fb, qb, lb, sb)),
{
    lemma_lead_facts(la);
    lemma_lead_facts(lb);
    lemma_spacer_facts(sa);
    lemma_spacer_facts(sb);
    lemma_family_facts(fb);
    let t = bare_target(fa, qa, la, sa, up);
    let m = bare_needle(fb, qb, lb, sb);
    let la_s = leads()[la];
    let lb_s = leads()[lb];
    let ta = la_s + spacers()[sa];
    let tb = ta + seq![quotes()[qa]];
    let tc = tb + up;
    let ma = lb_s + spacers()[sb];
    let mb = ma + seq![quotes()[qb]];
    assert(t == tc + family(fa));
    assert(m == mb + family(fb));
    if la != lb {
        assert(t[0] == la_s[0]);
        assert(m[0] == lb_s[0]);
    } else if sa != sb {
        let p = la_s.len() as int;
        let ct = if sa == 0 { quotes()[qa] } else { spacers()[sa][0] };
        let cm = if sb == 0 { quotes()[qb] } else { spacers()[sb][0] };
        assert(t[p] == ct);
        assert(m[p] == cm);
        assert(ct != cm);
    } else if qa != qb {
        let p = ta.len() as int;
        assert(t[p] == quotes()[qa]);
        assert(m[p] == quotes()[qb]);
    } else {
        let p = tb.len() as int;
        assert(t[p] == up[0]);
        assert(m[p] == family(fb)[0]);
    }
}

/// The first stage's insertions make no occurrence of any first-stage
/// pattern.
proof fn lemma_bare_vs_bare(
    fa: int,
    qa: int,
    la: int,
    sa: int,
    fb: int,
    qb: int,
    lb: int,
    sb: int,
    up: Seq<char>,
)
    requires
        bare_index(fa, qa, la, sa),
        bare_index(fb, qb, lb, sb),
        up_ok(up),
    ensures
        no_start_within(bare_target(fa, qa, la, sa, up), bare_needle(fb, qb, lb, sb)),
        no_tail_prefix(bare_target(fa, qa, la, sa, up), bare_needle(fb, qb, lb, sb)),
{
    lemma_bare_target_facts(fa, qa, la, sa, up);
    lemma_bare_needle_facts(fb, qb, lb, sb);
    let t = bare_target(fa, qa, la, sa, up);
    let m = bare_needle(fb, qb, lb, sb);
    assert forall|k: int| 1 <= k < m.len() implies !clash(t, #[trigger] m.skip(k)) by {
        if fi_char(m[k]) {
            assert(m.skip(k)[1] == m[k + 1]);
            assert(t[1] != m.skip(k)[1]);
        } else {
            assert(t[0] != m.skip(k)[0]);
        }
    }
    assert forall|i: int| 0 <= i < t.len() implies !clash(#[trigger] t.skip(i), m) by {
        if i == 0 {
            lemma_bare_heads_differ(fa, qa, la, sa, fb, qb, lb, sb, up);
            assert(t.skip(0) =~= t);
        } else if fi_char(t[i]) {
            assert(t.skip(i)[1] == t[i + 1]);
            assert(t.skip(i)[1] != m[1]);
        } else {
            assert(t.skip(i)[0] != m[0]);
        }
    }
}

/// The second stage's insertions make no occurrence of a first-stage
/// pattern.
proof fn lemma_entry_vs_bare(fa: int, qa: int, fb: int, qb: int, lb: int, sb: int, up: Seq<char>)
    requires
        0 <= fa < 4,
        0 <= qa < 2,
        bare_index(fb, qb, lb, sb),
        up_ok(up),
    ensures
        no_start_within(entry_target(fa, qa, up), bare_needle(fb, qb, lb, sb)),
        no_tail_prefix(entry_target(fa, qa, up), bare_needle(fb, qb, lb, sb)),
{
    lemma_entry_target_facts(fa, qa, up);
    lemma_bare_needle_facts(fb, qb, lb, sb);
    let t = entry_target(fa, qa, up);
    let m = bare_needle(fb, qb, lb, sb);
    assert forall|k: int| 1 <= k < m.len() implies !clash(t, #[trigger] m.skip(k)) by {
        assert(t[0] != m.skip(k)[0]);
    }
    assert forall|i: int| 0 <= i < t.len() implies !clash(#[trigger] t.skip(i), m) by {
        if fi_char(t[i]) {
            assert(t.skip(i)[1] == t[i + 1]);
            assert(t.skip(i)[1] != m[1]);
        } else {
            assert(t.skip(i)[0] != m[0]);
        }
    }
}

/// Two texts that end in their only quote and agree where both reach are
/// equally long.
proof fn lemma_quote_clash(a: Seq<char>, b: Seq<char>)
    requires
        quote_last(a),
        quote_last(b),
        clash(a, b),
    ensures
        a.len() == b.len(),
{
    if a.len() < b.len() {
        assert(a[a.len() - 1] == b[a.len() - 1]);
    } else if b.len() < a.len() {
        assert(a[b.len() - 1] == b[b.len() - 1]);
    }
}

/// The second stage's insertions make no occurrence of a second-stage
/// pattern: each ends in its only quote, after an `s` that no pattern has
/// there.
proof fn lemma_entry_vs_entry(fa: int, qa: int, fb: int, qb: int, up: Seq<char>)
    requires
        0 <= fa < 4,
        0 <= qa < 2,
        0 <= fb < 4,
        0 <= qb < 2,
        up_plain(up),
    ensures
        no_start_within(entry_target(fa, qa, up), entry_needle(fb, qb, up)),
        no_tail_prefix(entry_target(fa, qa, up), entry_needle(fb, qb, up)),
{
    lemma_entry_target_facts(fa, qa, up);
    lemma_entry_needle_facts(fb, qb, up);
    let t = entry_target(fa, qa, up);
    let m = entry_needle(fb, qb, up);
    assert forall|k: int| 1 <= k < m.len() implies !clash(t, #[trigger] m.skip(k)) by {
        let c = m.skip(k);
        assert(quote_last(c)) by {
            assert(c[c.len() - 1] == m[m.len() - 1]);
            assert forall|j: int| 0 <= j < c.len() - 1 implies !is_quote(#[trigger] c[j]) by {
                assert(c[j] == m[j + k]);
            }
        }
        if clash(t, c) {
            lemma_quote_clash(t, c);
            assert(c[c.len() - 2] == m[m.len() - 2]);
            assert(t[t.len() - 2] == c[c.len() - 2]);
        }
    }
    assert forall|i: int| 0 <= i < t.len() implies !clash(#[trigger] t.skip(i), m) by {
        let c = t.skip(i);
        assert(quote_last(c)) by {
            assert(c[c.len() - 1] == t[t.len() - 1]);
            assert forall|j: int| 0 <= j < c.len() - 1 implies !is_quote(#[trigger] c[j]) by {
                assert(c[j] == t[j + i]);
            }
        }
        if clash(c, m) {
            lemma_quote_clash(c, m);
            assert(c[c.len() - 2] == t[t.len() - 2]);
            assert(c[c.len() - 2] == m[m.len() - 2]);
        }
    }
}

/// No first-stage pattern occurs in `s`.
pub open spec fn bare_free(s: Seq<char>) -> bool {
    forall|fi: int, qi: int, li: int, si: int|
        bare_index(fi, qi, li, si) ==> absent(s, #[trigger] bare_needle(fi, qi, li, si))
}

/// No second-stage pattern occurs in `s`.
pub open spec fn entry_free(s: Seq<char>, up: Seq<char>) -> bool {
    forall|fi: int, qi: int| 0 <= fi < 4 && 0 <= qi < 2 ==> absent(s, #[trigger] entry_needle(fi, qi, up))
}

/// Replacing a pattern by itself changes nothing.
proof fn lemma_replace_same(s: Seq<char>, n: Seq<char>)
    ensures
        replace_all(s, n, n) == s,
    decreases s.len(),
{
    if n.len() > 0 && s.len() >= n.len() {
        if s.take(n.len() as int) == n {
            lemma_replace_same(s.skip(n.len() as int), n);
            assert(n + s.skip(n.len() as int) =~= s);
        } else {
            lemma_replace_same(s.skip(1), n);
            assert(seq![s[0]] + s.skip(1) =~= s);
        }
    }
}

proof fn lemma_spacers_chain(x: Seq<char>, fi: int, qi: int, li: int, up: Seq<char>, k: nat)
    requires
        0 <= fi < 4,
        0 <= qi < 2,
        0 <= li < 2,
        k <= 3,
        up_plain(up),
    ensures
        ({
            let r = rewrite_spacers(x, leads()[li], quotes()[qi], family(fi), up, k);
            &&& (up.len() == 0 ==> r == x)
            &&& (bare_free(x) ==> r == x)
            &&& (up_ok(up) ==> forall|fb: int, qb: int, lb: int, sb: int|
                bare_index(fb, qb, lb, sb) && absent(x, bare_needle(fb, qb, lb, sb)) ==> absent(
                    r,
                    #[trigger] bare_needle(fb, qb, lb, sb),
                ))
            &&& (up_ok(up) ==> forall|si: int| 0 <= si < k ==> absent(r, #[trigger] bare_needle(fi, qi, li, si)))
        }),
    decreases k,
{
    if k > 0 {
        lemma_spacers_chain(x, fi, qi, li, up, (k - 1) as nat);
        let p = rewrite_spacers(x, leads()[li], quotes()[qi], family(fi), up, (k - 1) as nat);
        let r = rewrite_spacers(x, leads()[li], quotes()[qi], family(fi), up, k);
        let si = k - 1;
        let n = bare_needle(fi, qi, li, si);
        let t = bare_target(fi, qi, li, si, up);
        assert(r == replace_all(p, n, t));
        lemma_bare_needle_facts(fi, qi, li, si);
        if up.len() == 0 {
            assert(t =~= n);
            lemma_replace_same(p, n);
        }
        if bare_free(x) {
            assert(absent(p, n));
            lemma_replace_absent(p, n, t);
        }
        if up_ok(up) {
            assert forall|fb: int, qb: int, lb: int, sb: int|
                bare_index(fb, qb, lb, sb) && absent(x, bare_needle(fb, qb, lb, sb)) implies absent(
                r,
                #[trigger] bare_needle(fb, qb, lb, sb),
            ) by {
                lemma_bare_vs_bare(fi, qi, li, si, fb, qb, lb, sb, up);
                lemma_bare_needle_facts(fb, qb, lb, sb);
                lemma_replace_clears(p, n, t, bare_needle(fb, qb, lb, sb));
            }
            assert forall|s2: int| 0 <= s2 < k implies absent(r, #[trigger] bare_needle(fi, qi, li, s2)) by {
                lemma_bare_vs_bare(fi, qi, li, si, fi, qi, li, s2, up);
                lemma_bare_needle_facts(fi, qi, li, s2);
                lemma_replace_clears(p, n, t, bare_needle(fi, qi, li, s2));
            }
        }
    }
}

proof fn lemma_leads_chain(x: Seq<char>, fi: int, qi: int, up: Seq<char>, k: nat)
    requires
        0 <= fi < 4,
        0 <= qi < 2,
        k <= 2,
        up_plain(up),
    ensures
        ({
            let r = rewrite_leads(x, quotes()[qi], family(fi), up, k);
            &&& (up.len() == 0 ==> r == x)
            &&& (bare_free(x) ==> r == x)
            &&& (up_ok(up) ==> forall|fb: int, qb: int, lb: int, sb: int|
                bare_index(fb, qb, lb, sb) && absent(x, bare_needle(fb, qb, lb, sb)) ==> absent(
                    r,
                    #[trigger] bare_needle(fb, qb, lb, sb),
                ))
            &&& (up_ok(up) ==> forall|li: int, si: int|
                0 <= li < k && 0 <= si < 3 ==> absent(r, #[trigger] bare_needle(fi, qi, li, si)))
        }),
    decreases k,
{
    if k > 0 {
        lemma_leads_chain(x, fi, qi, up, (k - 1) as nat);
        let p = rewrite_leads(x, quotes()[qi], family(fi), up, (k - 1) as nat);
        lemma_spacers_chain(p, fi, qi, k - 1, up, 3);
    }
}

proof fn lemma_quotes_chain(x: Seq<char>, fi: int, up: Seq<char>, k: nat)
    requires
        0 <= fi < 4,
        k <= 2,
        up_plain(up),
    ensures
        ({
            let r = rewrite_quotes(x, family(fi), up, k);
            &&& (up.len() == 0 ==> r == x)
            &&& (bare_free(x) ==> r == x)
            &&& (up_ok(up) ==> forall|fb: int, qb: int, lb: int, sb: int|
                bare_index(fb, qb, lb, sb) && absent(x, bare_needle(fb, qb, lb, sb)) ==> absent(
                    r,
                    #[trigger] bare_needle(fb, qb, lb, sb),
                ))
            &&& (up_ok(up) ==> forall|qi: int, li: int, si: int|
                0 <= qi < k && 0 <= li < 2 && 0 <= si < 3 ==> absent(r, #[trigger] bare_needle(fi, qi, li, si)))
        }),
    decreases k,
{
    if k > 0 {
        lemma_quotes_chain(x, fi, up, (k - 1) as nat);
        let p = rewrite_quotes(x, family(fi), up, (k - 1) as nat);
        lemma_leads_chain(p, fi, k - 1, up, 2);
    }
}

proof fn lemma_families_chain(x: Seq<char>, up: Seq<char>, k: nat)
    requires
        k <= 4,
        up_plain(up),
    ensures
        ({
            let r = rewrite_families(x, up, k);
            &&& (up.len() == 0 ==> r == x)
            &&& (bare_free(x) ==> r == x)
            &&& (up_ok(up) ==> forall|fi: int, qi: int, li: int, si: int|
                0 <= fi < k && bare_index(fi, qi, li, si) ==> absent(r, #[trigger] bare_needle(fi, qi, li, si)))
        }),
    decreases k,
{
    if k > 0 {
        lemma_families_chain(x, up, (k - 1) as nat);
        let p = rewrite_families(x, up, (k - 1) as nat);
        lemma_quotes_chain(p, k - 1, up, 2);
    }
}

proof fn lemma_entry_quotes_chain(x: Seq<char>, fi: int, up: Seq<char>, k: nat)
    requires
        0 <= fi < 4,
        k <= 2,
        up_plain(up),
    ensures
        ({
            let r = entry_quotes(x, family(fi), up, k);
            &&& (entry_free(x, up) ==> r == x)
            &&& (forall|fb: int, qb: int|
                0 <= fb < 4 && 0 <= qb < 2 && absent(x, entry_needle(fb, qb, up)) ==> absent(
                    r,
                    #[trigger] entry_needle(fb, qb, up),
                ))
            &&& (forall|qi: int| 0 <= qi < k ==> absent(r, #[trigger] entry_needle(fi, qi, up)))
            &&& (up_ok(up) ==> forall|fb: int, qb: int, lb: int, sb: int|
                bare_index(fb, qb, lb, sb) && absent(x, bare_needle(fb, qb, lb, sb)) ==> absent(
                    r,
                    #[trigger] bare_needle(fb, qb, lb, sb),
                ))
        }),
    decreases k,
{
    if k > 0 {
        lemma_entry_quotes_chain(x, fi, up, (k - 1) as nat);
        let p = entry_quotes(x, family(fi), up, (k - 1) as nat);
        let r = entry_quotes(x, family(fi), up, k);
        let qi = k - 1;
        let n = entry_needle(fi, qi, up);
        let t = entry_target(fi, qi, up);
        assert(r == replace_all(p, n, t));
        lemma_entry_needle_facts(fi, qi, up);
        if entry_free(x, up) {
            assert(absent(p, n));
            lemma_replace_absent(p, n, t);
        }
        assert forall|fb: int, qb: int|
            0 <= fb < 4 && 0 <= qb < 2 && absent(x, entry_needle(fb, qb, up)) implies absent(
            r,
            #[trigger] entry_needle(fb, qb, up),
        ) by {
            lemma_entry_vs_entry(fi, qi, fb, qb, up);
            lemma_entry_needle_facts(fb, qb, up);
            lemma_replace_clears(p, n, t, entry_needle(fb, qb, up));
        }
        assert forall|q2: int| 0 <= q2 < k implies absent(r, #[trigger] entry_needle(fi, q2, up)) by {
            lemma_entry_vs_entry(fi, qi, fi, q2, up);
            lemma_entry_needle_facts(fi, q2, up);
            lemma_replace_clears(p, n, t, entry_needle(fi, q2, up));
        }
        if up_ok(up) {
            assert forall|fb: int, qb: int, lb: int, sb: int|
                bare_index(fb, qb, lb, sb) && absent(x, bare_needle(fb, qb, lb, sb)) implies absent(
                r,
                #[trigger] bare_needle(fb, qb, lb, sb),
            ) by {
                lemma_entry_vs_bare(fi, qi, fb, qb, lb, sb, up);
                lemma_bare_needle_facts(fb, qb, lb, sb);
                lemma_replace_clears(p, n, t, bare_needle(fb, qb, lb, sb));
            }
        }
    }
}

proof fn lemma_entry_families_chain(x: Seq<char>, up: Seq<char>, k: nat)
    requires
        k <= 4,
        up_plain(up),
    ensures
        ({
            let r = entry_families(x, up, k);
            &&& (entry_free(x, up) ==> r == x)
            &&& (forall|fi: int, qi: int| 0 <= fi < k && 0 <= qi < 2 ==> absent(r, #[trigger] entry_needle(fi, qi, up)))
            &&& (up_ok(up) ==> bare_free(x) ==> bare_free(r))
        }),
    decreases k,
{
    if k > 0 {
        lemma_entry_families_chain(x, up, (k - 1) as nat);
        let p = entry_families(x, up, (k - 1) as nat);
        lemma_entry_quotes_chain(p, k - 1, up, 2);
    }
}

proof fn lemma_up_plain(depth: nat)
    ensures
        up_plain(repeat(seq!['.', '.', '/'], depth)),
        depth == 0 ==> repeat(seq!['.', '.', '/'], depth).len() == 0,
        depth >= 1 ==> up_ok(repeat(seq!['.', '.', '/'], depth)),
    decreases depth,
{
    if depth > 0 {
        lemma_up_plain((depth - 1) as nat);
        let prev = repeat(seq!['.', '.', '/'], (depth - 1) as nat);
        let up = repeat(seq!['.', '.', '/'], depth);
        assert(up == prev + seq!['.', '.', '/']);
        assert forall|j: int| 0 <= j < up.len() implies #[trigger] up[j] == '.' || up[j] == '/' by {
            if j < prev.len() {
                assert(up[j] == prev[j]);
            }
        }
        assert(up[0] == '.');
    }
}

/// Rewriting a rewritten module changes nothing more: after the rewrite no
/// bare specifier of a mock family is left, and every rewritten family
/// entry already names its module file.
pub proof fn law_rewrite_idempotent(source: Seq<char>, depth: nat)
    ensures
        rewrite_spec(rewrite_spec(source, depth), depth) == rewrite_spec(source, depth),
{
    let up = repeat(seq!['.', '.', '/'], depth);
    lemma_up_plain(depth);
    let a = rewrite_families(source, up, 4);
    let r = entry_families(a, up, 4);
    assert(rewrite_spec(source, depth) == r);
    lemma_families_chain(source, up, 4);
    lemma_entry_families_chain(a, up, 4);
    lemma_families_chain(r, up, 4);
    assert(rewrite_families(r, up, 4) == r);
    lemma_entry_families_chain(r, up, 4);
}

} // verus!

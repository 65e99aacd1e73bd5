//! The browser worker host's module rewriting: a vendored foreign package
//! imports `lit` by bare specifiers, and import maps do not reach workers,
//! so its modules' bare `lit*` imports are rewritten to relative paths into
//! the worker tree, whose root provides the mocked runtime.

use vstd::prelude::*;

use crate::strings::{chars_of, push_char, string_of};

verus! {

/// The bare specifier families the mocked runtime provides at the worker
/// tree's root.
pub open spec fn mock_families() -> Seq<Seq<char>> {
    seq!["lit"@, "lit-html"@, "lit-element"@, "@lit/"@]
}

/// The quote characters a specifier sits in.
pub open spec fn quotes() -> Seq<char> {
    seq!['"', '\'']
}

/// The keywords a specifier follows.
pub open spec fn leads() -> Seq<Seq<char>> {
    seq!["from"@, "import"@]
}

/// What may stand between keyword and quote: nothing, a space, the
/// dynamic import's parenthesis.
pub open spec fn spacers() -> Seq<Seq<char>> {
    seq![""@, " "@, "("@]
}

/// Trailing `/` removed.
pub open spec fn trim_slashes(s: Seq<char>) -> Seq<char>
    decreases s.len(),
{
    if s.len() > 0 && s.last() == '/' {
        trim_slashes(s.drop_last())
    } else {
        s
    }
}

/// `s` repeated `n` times.
pub open spec fn repeat(s: Seq<char>, n: nat) -> Seq<char>
    decreases n,
{
    if n == 0 {
        Seq::empty()
    } else {
        repeat(s, (n - 1) as nat) + s
    }
}

/// Every non-overlapping occurrence of `from`, scanned left to right,
/// replaced by `to` — what `str::replace` does for a non-empty pattern.
pub open spec fn replace_all(s: Seq<char>, from: Seq<char>, to: Seq<char>) -> Seq<char>
    decreases s.len(),
{
    if from.len() == 0 || s.len() < from.len() {
        s
    } else if s.take(from.len() as int) == from {
        to + replace_all(s.skip(from.len() as int), from, to)
    } else {
        seq![s[0]] + replace_all(s.skip(1), from, to)
    }
}

/// The import rewrite for one keyword, quote and family, over the first
/// `k` spacers.
pub open spec fn rewrite_spacers(
    s: Seq<char>,
    lead: Seq<char>,
    quote: char,
    family: Seq<char>,
    up: Seq<char>,
    k: nat,
) -> Seq<char>
    decreases k,
{
    if k == 0 {
        s
    } else {
        let before = rewrite_spacers(s, lead, quote, family, up, (k - 1) as nat);
        let spacer = spacers()[k - 1];
        replace_all(
            before,
            lead + spacer + seq![quote] + family,
            lead + spacer + seq![quote] + up + family,
        )
    }
}

/// The import rewrite over the first `k` keywords.
pub open spec fn rewrite_leads(s: Seq<char>, quote: char, family: Seq<char>, up: Seq<char>, k: nat) -> Seq<char>
    decreases k,
{
    if k == 0 {
        s
    } else {
        rewrite_spacers(rewrite_leads(s, quote, family, up, (k - 1) as nat), leads()[k - 1], quote, family, up, 3)
    }
}

/// The import rewrite over the first `k` quotes.
pub open spec fn rewrite_quotes(s: Seq<char>, family: Seq<char>, up: Seq<char>, k: nat) -> Seq<char>
    decreases k,
{
    if k == 0 {
        s
    } else {
        rewrite_leads(rewrite_quotes(s, family, up, (k - 1) as nat), quotes()[k - 1], family, up, 2)
    }
}

/// The import rewrite over the first `k` families.
pub open spec fn rewrite_families(s: Seq<char>, up: Seq<char>, k: nat) -> Seq<char>
    decreases k,
{
    if k == 0 {
        s
    } else {
        rewrite_quotes(rewrite_families(s, up, (k - 1) as nat), trim_slashes(mock_families()[k - 1]), up, 2)
    }
}

/// The entry-file rewrite of one family over the first `k` quotes: an
/// extension-less rewritten entry points at its module file.
pub open spec fn entry_quotes(s: Seq<char>, family: Seq<char>, up: Seq<char>, k: nat) -> Seq<char>
    decreases k,
{
    if k == 0 {
        s
    } else {
        let quote = quotes()[k - 1];
        replace_all(
            entry_quotes(s, family, up, (k - 1) as nat),
            up + family + seq![quote],
            up + family + seq!['.', 'j', 's', quote],
        )
    }
}

/// The entry-file rewrite over the first `k` families.
pub open spec fn entry_families(s: Seq<char>, up: Seq<char>, k: nat) -> Seq<char>
    decreases k,
{
    if k == 0 {
        s
    } else {
        entry_quotes(entry_families(s, up, (k - 1) as nat), trim_slashes(mock_families()[k - 1]), up, 2)
    }
}

/// The whole rewrite of a module at a nesting depth under the worker
/// modules root.
pub open spec fn rewrite_spec(source: Seq<char>, depth: nat) -> Seq<char> {
    let up = repeat(seq!['.', '.', '/'], depth);
    entry_families(rewrite_families(source, up, 4), up, 4)
}

/// True when `from` occurs in `s` at `i`.
pub open spec fn occurs_at(s: Seq<char>, from: Seq<char>, i: int) -> bool {
    0 <= i && i + from.len() <= s.len() && s.subrange(i, i + from.len() as int) == from
}

fn matches_at(s: &Vec<char>, from: &Vec<char>, i: usize) -> (r: bool)
    requires
        i <= s@.len(),
    ensures
        r == occurs_at(s@, from@, i as int),
{
    if from.len() > s.len() - i {
        return false;
    }
    let mut k: usize = 0;
    while k < from.len()
        invariant
            0 <= k <= from@.len(),
            i <= s@.len(),
            i + from@.len() <= s.len(),
            forall|j: int| 0 <= j < k ==> s@[i + j] == from@[j],
        decreases from@.len() - k,
    {
        if s[i + k] != from[k] {
            assert(s@.subrange(i as int, i + from@.len())[k as int] != from@[k as int]);
            return false;
        }
        k = k + 1;
    }
    assert(s@.subrange(i as int, i + from@.len()) =~= from@);
    true
}

/// `str::replace` with a non-empty pattern over characters.
pub fn replace_all_exec(s: &Vec<char>, from: &Vec<char>, to: &Vec<char>) -> (r: Vec<char>)
    ensures
        r@ == replace_all(s@, from@, to@),
{
    if from.len() == 0 {
        return s.clone();
    }
    let mut out: Vec<char> = Vec::new();
    let mut i: usize = 0;
    assert(s@.skip(0) =~= s@);
    assert(out@ + replace_all(s@, from@, to@) =~= replace_all(s@, from@, to@));
    while i < s.len()
        invariant
            0 <= i <= s@.len(),
            from@.len() > 0,
            out@ + replace_all(s@.skip(i as int), from@, to@) == replace_all(s@, from@, to@),
        decreases s@.len() - i,
    {
        let ghost rest = s@.skip(i as int);
        if matches_at(s, from, i) {
            assert(rest.take(from@.len() as int) =~= s@.subrange(i as int, i + from@.len()));
            assert(rest.skip(from@.len() as int) =~= s@.skip(i + from@.len()));
            let mut k: usize = 0;
            let ghost before = out@;
            while k < to.len()
                invariant
                    0 <= k <= to@.len(),
                    out@ == before + to@.take(k as int),
                decreases to@.len() - k,
            {
                out.push(to[k]);
                assert(before + to@.take(k + 1) =~= (before + to@.take(k as int)).push(to@[k as int]));
                k = k + 1;
            }
            assert(to@.take(to@.len() as int) =~= to@);
            assert(before + (to@ + replace_all(s@.skip(i + from@.len()), from@, to@)) =~= out@
                + replace_all(s@.skip(i + from@.len()), from@, to@));
            i = i + from.len();
        } else {
            proof {
                if rest.len() >= from@.len() {
                    assert(rest.take(from@.len() as int) =~= s@.subrange(i as int, i + from@.len()));
                }
            }
            assert(rest.skip(1) =~= s@.skip(i + 1));
            let ghost before = out@;
            out.push(s[i]);
            if s.len() - i < from.len() {
                // The tail is shorter than the pattern: it stays as it is.
                let mut k: usize = i + 1;
                assert(rest =~= seq![s@[i as int]] + s@.skip(i + 1));
                let ghost tail_start = out@;
                while k < s.len()
                    invariant
                        i + 1 <= k <= s@.len(),
                        out@ == tail_start + s@.subrange(i + 1, k as int),
                    decreases s@.len() - k,
                {
                    out.push(s[k]);
                    assert(tail_start + s@.subrange(i + 1, k + 1) =~= (tail_start + s@.subrange(
                        i + 1,
                        k as int,
                    )).push(s@[k as int]));
                    k = k + 1;
                }
                assert(s@.subrange(i + 1, s@.len() as int) =~= s@.skip(i + 1));
                assert(before + rest =~= out@);
                assert(replace_all(s@.skip(s@.len() as int), from@, to@) =~= Seq::<char>::empty());
                assert(out@ + replace_all(s@.skip(s@.len() as int), from@, to@) =~= out@);
                i = s.len();
            } else {
                assert(before + (seq![s@[i as int]] + replace_all(s@.skip(i + 1), from@, to@))
                    =~= out@ + replace_all(s@.skip(i + 1), from@, to@));
                i = i + 1;
            }
        }
    }
    assert(s@.skip(s@.len() as int) =~= Seq::<char>::empty());
    assert(out@ + Seq::<char>::empty() =~= out@);
    out
}

fn concat3(a: &Vec<char>, b: &Vec<char>, c: &Vec<char>) -> (r: Vec<char>)
    ensures
        r@ == a@ + b@ + c@,
{
    let mut r = a.clone();
    let mut i: usize = 0;
    while i < b.len()
        invariant
            0 <= i <= b@.len(),
            r@ == a@ + b@.take(i as int),
        decreases b@.len() - i,
    {
        r.push(b[i]);
        assert(a@ + b@.take(i + 1) =~= (a@ + b@.take(i as int)).push(b@[i as int]));
        i = i + 1;
    }
    let mut j: usize = 0;
    while j < c.len()
        invariant
            0 <= j <= c@.len(),
            r@ == a@ + b@ + c@.take(j as int),
        decreases c@.len() - j,
    {
        r.push(c[j]);
        assert(a@ + b@ + c@.take(j + 1) =~= (a@ + b@ + c@.take(j as int)).push(c@[j as int]));
        j = j + 1;
    }
    assert(b@.take(b@.len() as int) =~= b@);
    assert(c@.take(c@.len() as int) =~= c@);
    r
}

fn family_exec(k: usize) -> (f: Vec<char>)
    requires
        k < 4,
    ensures
        f@ == trim_slashes(mock_families()[k as int]),
{
    let raw = if k == 0 {
        chars_of("lit")
    } else if k == 1 {
        chars_of("lit-html")
    } else if k == 2 {
        chars_of("lit-element")
    } else {
        chars_of("@lit/")
    };
    let mut f = raw;
    while f.len() > 0 && f[f.len() - 1] == '/'
        invariant
            trim_slashes(f@) == trim_slashes(mock_families()[k as int]),
        decreases f@.len(),
    {
        let ghost prev = f@;
        f.pop();
        assert(f@ =~= prev.drop_last());
    }
    f
}

fn quote_exec(k: usize) -> (q: char)
    requires
        k < 2,
    ensures
        q == quotes()[k as int],
{
    if k == 0 {
        '"'
    } else {
        '\''
    }
}

fn lead_exec(k: usize) -> (l: Vec<char>)
    requires
        k < 2,
    ensures
        l@ == leads()[k as int],
{
    if k == 0 {
        chars_of("from")
    } else {
        chars_of("import")
    }
}

fn spacer_exec(k: usize) -> (s: Vec<char>)
    requires
        k < 3,
    ensures
        s@ == spacers()[k as int],
{
    if k == 0 {
        chars_of("")
    } else if k == 1 {
        chars_of(" ")
    } else {
        chars_of("(")
    }
}

/// Rewrites a module's bare `lit*` imports to relative paths into the
/// worker tree, `depth` directories up. The grammar is the finite
/// quoted-specifier set of ES modules (`from "…"`, `import "…"`,
/// `import("…")`); then an extension-less rewritten family entry points at
/// its module file.
pub fn rewrite_bare_imports(source: &str, depth: usize) -> (out: String)
    ensures
        out@ == rewrite_spec(source@, depth as nat),
{
    let mut up: Vec<char> = Vec::new();
    let mut d: usize = 0;
    while d < depth
        invariant
            0 <= d <= depth,
            up@ == repeat(seq!['.', '.', '/'], d as nat),
        decreases depth - d,
    {
        up.push('.');
        up.push('.');
        up.push('/');
        assert(up@ =~= repeat(seq!['.', '.', '/'], (d + 1) as nat));
        d = d + 1;
    }
    let mut out = chars_of(source);
    let mut fi: usize = 0;
    while fi < 4
        invariant
            0 <= fi <= 4,
            up@ == repeat(seq!['.', '.', '/'], depth as nat),
            out@ == rewrite_families(source@, up@, fi as nat),
        decreases 4 - fi,
    {
        let family = family_exec(fi);
        let ghost family_start = out@;
        let mut qi: usize = 0;
        while qi < 2
            invariant
                0 <= qi <= 2,
                fi < 4,
                family@ == trim_slashes(mock_families()[fi as int]),
                out@ == rewrite_quotes(family_start, family@, up@, qi as nat),
            decreases 2 - qi,
        {
            let quote = quote_exec(qi);
            let mut quoted: Vec<char> = Vec::new();
            quoted.push(quote);
            let ghost quote_start = out@;
            let mut li: usize = 0;
            while li < 2
                invariant
                    0 <= li <= 2,
                    qi < 2,
                    quote == quotes()[qi as int],
                    quoted@ == seq![quote],
                    out@ == rewrite_leads(quote_start, quote, family@, up@, li as nat),
                decreases 2 - li,
            {
                let lead = lead_exec(li);
                let ghost lead_start = out@;
                let mut si: usize = 0;
                while si < 3
                    invariant
                        0 <= si <= 3,
                        li < 2,
                        lead@ == leads()[li as int],
                        quoted@ == seq![quote],
                        out@ == rewrite_spacers(lead_start, lead@, quote, family@, up@, si as nat),
                    decreases 3 - si,
                {
                    let spacer = spacer_exec(si);
                    let head = concat3(&lead, &spacer, &quoted);
                    let needle = concat3(&head, &family, &Vec::new());
                    let replacement = concat3(&head, &up, &family);
                    assert(needle@ =~= lead@ + spacer@ + seq![quote] + family@);
                    assert(replacement@ =~= lead@ + spacer@ + seq![quote] + up@ + family@);
                    out = replace_all_exec(&out, &needle, &replacement);
                    si = si + 1;
                }
                li = li + 1;
            }
            qi = qi + 1;
        }
        fi = fi + 1;
    }
    let ghost imports_done = out@;
    let mut fi: usize = 0;
    while fi < 4
        invariant
            0 <= fi <= 4,
            out@ == entry_families(imports_done, up@, fi as nat),
        decreases 4 - fi,
    {
        let family = family_exec(fi);
        let ghost family_start = out@;
        let mut qi: usize = 0;
        while qi < 2
            invariant
                0 <= qi <= 2,
                fi < 4,
                family@ == trim_slashes(mock_families()[fi as int]),
                out@ == entry_quotes(family_start, family@, up@, qi as nat),
            decreases 2 - qi,
        {
            let quote = quote_exec(qi);
            let mut quoted: Vec<char> = Vec::new();
            quoted.push(quote);
            let mut extended: Vec<char> = Vec::new();
            extended.push('.');
            extended.push('j');
            extended.push('s');
            extended.push(quote);
            let bare = concat3(&up, &family, &quoted);
            let file = concat3(&up, &family, &extended);
            assert(extended@ =~= seq!['.', 'j', 's', quote]);
            out = replace_all_exec(&out, &bare, &file);
            qi = qi + 1;
        }
        fi = fi + 1;
    }
    string_of(&out)
}

/// No occurrence of `from` anywhere in `s`.
pub open spec fn absent(s: Seq<char>, from: Seq<char>) -> bool {
    forall|i: int| !#[trigger] occurs_at(s, from, i)
}

pub(crate) proof fn lemma_replace_absent(s: Seq<char>, from: Seq<char>, to: Seq<char>)
    requires
        from.len() > 0,
        absent(s, from),
    ensures
        replace_all(s, from, to) == s,
    decreases s.len(),
{
    if s.len() >= from.len() {
        assert(!occurs_at(s, from, 0));
        assert(s.subrange(0, from.len() as int) =~= s.take(from.len() as int));
        let rest = s.skip(1);
        assert forall|i: int| !#[trigger] occurs_at(rest, from, i) by {
            if occurs_at(rest, from, i) {
                assert(rest.subrange(i, i + from.len() as int) =~= s.subrange(i + 1, i + 1 + from.len() as int));
                assert(occurs_at(s, from, i + 1));
            }
        }
        lemma_replace_absent(rest, from, to);
        assert(seq![s[0]] + rest =~= s);
    }
}

/// A pattern holding `f` at offset `off` occurs only where `f` does.
pub(crate) proof fn lemma_absent_within(s: Seq<char>, needle: Seq<char>, f: Seq<char>, off: int)
    requires
        0 <= off,
        off + f.len() <= needle.len(),
        needle.subrange(off, off + f.len() as int) == f,
        absent(s, f),
    ensures
        absent(s, needle),
{
    assert forall|i: int| !#[trigger] occurs_at(s, needle, i) by {
        if occurs_at(s, needle, i) {
            assert(s.subrange(i + off, i + off + f.len() as int) =~= needle.subrange(off, off + f.len() as int));
            assert(occurs_at(s, f, i + off));
        }
    }
}

proof fn lemma_spacers_absent(s: Seq<char>, lead: Seq<char>, quote: char, family: Seq<char>, up: Seq<char>, k: nat)
    requires
        k <= 3,
        family.len() > 0,
        absent(s, family),
    ensures
        rewrite_spacers(s, lead, quote, family, up, k) == s,
    decreases k,
{
    if k > 0 {
        lemma_spacers_absent(s, lead, quote, family, up, (k - 1) as nat);
        let needle = lead + spacers()[k - 1] + seq![quote] + family;
        let off = (lead + spacers()[k - 1] + seq![quote]).len() as int;
        assert(needle.subrange(off, off + family.len() as int) =~= family);
        lemma_absent_within(s, needle, family, off);
        lemma_replace_absent(s, needle, lead + spacers()[k - 1] + seq![quote] + up + family);
    }
}

proof fn lemma_leads_absent(s: Seq<char>, quote: char, family: Seq<char>, up: Seq<char>, k: nat)
    requires
        k <= 2,
        family.len() > 0,
        absent(s, family),
    ensures
        rewrite_leads(s, quote, family, up, k) == s,
    decreases k,
{
    if k > 0 {
        lemma_leads_absent(s, quote, family, up, (k - 1) as nat);
        lemma_spacers_absent(s, leads()[k - 1], quote, family, up, 3);
    }
}

proof fn lemma_quotes_absent(s: Seq<char>, family: Seq<char>, up: Seq<char>, k: nat)
    requires
        k <= 2,
        family.len() > 0,
        absent(s, family),
    ensures
        rewrite_quotes(s, family, up, k) == s,
        entry_quotes(s, family, up, k) == s,
    decreases k,
{
    if k > 0 {
        lemma_quotes_absent(s, family, up, (k - 1) as nat);
        lemma_leads_absent(s, quotes()[k - 1], family, up, 2);
        let needle = up + family + seq![quotes()[k - 1]];
        assert(needle.subrange(up.len() as int, (up.len() + family.len()) as int) =~= family);
        lemma_absent_within(s, needle, family, up.len() as int);
        lemma_replace_absent(s, needle, up + family + seq!['.', 'j', 's', quotes()[k - 1]]);
    }
}

pub(crate) proof fn lemma_family_names()
    ensures
        trim_slashes(mock_families()[0]) == seq!['l', 'i', 't'],
        trim_slashes(mock_families()[1]) == seq!['l', 'i', 't', '-', 'h', 't', 'm', 'l'],
        trim_slashes(mock_families()[2]) == seq!['l', 'i', 't', '-', 'e', 'l', 'e', 'm', 'e', 'n', 't'],
        trim_slashes(mock_families()[3]) == seq!['@', 'l', 'i', 't'],
{
    reveal_strlit("lit");
    reveal_strlit("lit-html");
    reveal_strlit("lit-element");
    reveal_strlit("@lit/");
    let f = mock_families()[3];
    assert(f.drop_last() =~= seq!['@', 'l', 'i', 't']);
    assert(trim_slashes(seq!['@', 'l', 'i', 't']) == seq!['@', 'l', 'i', 't']);
}

proof fn lemma_families_absent(s: Seq<char>, up: Seq<char>, k: nat)
    requires
        k <= 4,
        forall|j: int| 0 <= j < 4 ==> absent(s, #[trigger] trim_slashes(mock_families()[j])),
    ensures
        rewrite_families(s, up, k) == s,
        entry_families(s, up, k) == s,
    decreases k,
{
    if k > 0 {
        lemma_family_names();
        lemma_families_absent(s, up, (k - 1) as nat);
        let f = trim_slashes(mock_families()[k - 1]);
        assert(absent(s, f));
        lemma_quotes_absent(s, f, up, 2);
    }
}

/// A module in which `lit` never occurs comes back unchanged: every family
/// the rewrite looks for contains it.
pub proof fn law_unrelated_modules_unchanged(source: Seq<char>, depth: nat)
    requires
        absent(source, seq!['l', 'i', 't']),
    ensures
        rewrite_spec(source, depth) == source,
{
    let up = repeat(seq!['.', '.', '/'], depth);
    let lit = seq!['l', 'i', 't'];
    lemma_family_names();
    assert forall|j: int| 0 <= j < 4 implies absent(source, #[trigger] trim_slashes(mock_families()[j])) by {
        let f = trim_slashes(mock_families()[j]);
        let off: int = if j == 3 { 1 } else { 0 };
        assert(f.subrange(off, off + 3) =~= lit);
        lemma_absent_within(source, f, lit, off);
    }
    lemma_families_absent(source, up, 4);
}

/// `base` joined with a relative `name` as a path: `name` alone under an
/// empty base, otherwise one separator between them (none added when the
/// base already ends in one).
pub open spec fn join_path(base: Seq<char>, name: Seq<char>) -> Seq<char> {
    if base.len() == 0 {
        name
    } else if base.last() == '/' {
        base + name
    } else {
        base + seq!['/'] + name
    }
}

/// The TypeScript sources (`tui-worker.ts`, `client.ts`): the `web`
/// directory of the package rooted at `manifest_dir`, an extra root for a
/// consumer's module build.
pub fn web_root(manifest_dir: &str) -> (root: String)
    ensures
        root@ == join_path(manifest_dir@, seq!['w', 'e', 'b']),
{
    let base = chars_of(manifest_dir);
    let mut root = string_of(&base);
    if base.len() > 0 && base[base.len() - 1] != '/' {
        push_char(&mut root, '/');
    }
    push_char(&mut root, 'w');
    push_char(&mut root, 'e');
    push_char(&mut root, 'b');
    assert(root@ =~= join_path(manifest_dir@, seq!['w', 'e', 'b']));
    root
}

/// What becomes of one file of a vendored package in the worker tree.
#[derive(Debug, Clone, Copy, PartialEq, Eq, Structural)]
pub enum FileAction {
    /// A JavaScript module: its bare imports are rewritten for a module
    /// `depth` directories under the worker modules root.
    Rewrite { depth: usize },
    /// Anything else is copied as it is.
    Copy,
}

/// Whether a file name carries the `js` extension: a final `.js` after a
/// non-empty stem.
pub open spec fn is_js_name(name: Seq<char>) -> bool {
    name.len() > 3 && name.subrange(name.len() - 3, name.len() as int) == seq!['.', 'j', 's']
}

/// The action for a file named `name`, `components` path components under
/// the package root (its own name included), in a package `base_depth`
/// directories under the worker modules root.
pub open spec fn file_action_spec(name: Seq<char>, components: nat, base_depth: nat) -> FileAction {
    if is_js_name(name) {
        FileAction::Rewrite { depth: (base_depth + components - 1) as usize }
    } else {
        FileAction::Copy
    }
}

/// The action for one file of a vendored package: JavaScript modules are
/// rewritten at their depth in the worker tree, the rest copied.
pub fn file_action(name: &str, components: usize, base_depth: usize) -> (action: FileAction)
    requires
        components >= 1,
        base_depth + components - 1 <= usize::MAX,
    ensures
        action == file_action_spec(name@, components as nat, base_depth as nat),
{
    let cs = chars_of(name);
    let n = cs.len();
    let js = n > 3 && cs[n - 3] == '.' && cs[n - 2] == 'j' && cs[n - 1] == 's';
    proof {
        if n > 3 {
            let tail = name@.subrange(n - 3, n as int);
            assert(js ==> tail =~= seq!['.', 'j', 's']);
            assert(tail == seq!['.', 'j', 's'] ==> tail[0] == '.' && tail[1] == 'j' && tail[2] == 's');
        }
    }
    if js {
        FileAction::Rewrite { depth: base_depth + (components - 1) }
    } else {
        FileAction::Copy
    }
}

/// The plan for copying a vendored package into the worker tree: for each
/// file, given by its name and its number of path components under the
/// package root, whether to rewrite its imports (and at which depth) or
/// copy it. `base_depth` is the package's nesting under the worker modules
/// root.
pub fn rewrite_foreign_package(files: &Vec<(String, usize)>, base_depth: usize) -> (plan: Vec<
    FileAction,
>)
    requires
        forall|i: int|
            0 <= i < files@.len() ==> (#[trigger] files@[i]).1 >= 1 && base_depth + files@[i].1 - 1
                <= usize::MAX,
    ensures
        plan@.len() == files@.len(),
        forall|i: int|
            0 <= i < files@.len() ==> #[trigger] plan@[i] == file_action_spec(
                files@[i].0@,
                files@[i].1 as nat,
                base_depth as nat,
            ),
{
    let mut plan: Vec<FileAction> = Vec::new();
    let mut i: usize = 0;
    while i < files.len()
        invariant
            0 <= i <= files@.len(),
            plan@.len() == i,
            forall|k: int|
                0 <= k < files@.len() ==> (#[trigger] files@[k]).1 >= 1 && base_depth + files@[k].1
                    - 1 <= usize::MAX,
            forall|k: int|
                0 <= k < i ==> #[trigger] plan@[k] == file_action_spec(
                    files@[k].0@,
                    files@[k].1 as nat,
                    base_depth as nat,
                ),
        decreases files@.len() - i,
    {
        let action = file_action(files[i].0.as_str(), files[i].1, base_depth);
        plan.push(action);
        i = i + 1;
    }
    plan
}

} // verus!

//! Desktop entries: the command line that a launcher icon runs.
//!
//! Only the `Exec=` key of the `[Desktop Entry]` group matters here; the
//! field codes (`%f`, `%U`, ...) that a launcher would expand are dropped.

use vstd::prelude::*;
use vstd::string::StrSliceExecFns;
use vstd::string::StringExecFns;

use crate::text::{char_is_space, is_space, to_chars, trim, trim_range};

verus! {

broadcast use vstd::string::group_string_axioms;

/// `a` and `b` with one space between them; an empty side is left out.
pub open spec fn glue(a: Seq<char>, b: Seq<char>) -> Seq<char> {
    if a.len() == 0 {
        b
    } else if b.len() == 0 {
        a
    } else {
        a + seq![' '] + b
    }
}

/// The words of `s` (maximal runs of non-space characters), the first of
/// them continuing the partial word `cur`.
pub open spec fn words_from(s: Seq<char>, cur: Seq<char>) -> Seq<Seq<char>>
    decreases s.len(),
{
    if s.len() == 0 {
        if cur.len() == 0 {
            seq![]
        } else {
            seq![cur]
        }
    } else if is_space(s[0]) {
        let rest = words_from(s.drop_first(), seq![]);
        if cur.len() == 0 {
            rest
        } else {
            seq![cur] + rest
        }
    } else {
        words_from(s.drop_first(), cur.push(s[0]))
    }
}

/// What `str::split_whitespace` yields.
pub open spec fn words(s: Seq<char>) -> Seq<Seq<char>> {
    words_from(s, seq![])
}

/// A field code: a word that starts with `%`.
pub open spec fn is_field_code(w: Seq<char>) -> bool {
    w.len() > 0 && w[0] == '%'
}

/// The words that are not field codes, in order.
pub open spec fn kept(ws: Seq<Seq<char>>) -> Seq<Seq<char>>
    decreases ws.len(),
{
    if ws.len() == 0 {
        ws
    } else if is_field_code(ws[0]) {
        kept(ws.drop_first())
    } else {
        seq![ws[0]] + kept(ws.drop_first())
    }
}

/// Non-empty words joined with single spaces.
pub open spec fn join(ws: Seq<Seq<char>>) -> Seq<char>
    decreases ws.len(),
{
    if ws.len() == 0 {
        seq![]
    } else {
        glue(ws[0], join(ws.drop_first()))
    }
}

/// A command line with its field codes removed and its words re-spaced.
pub open spec fn strip_codes_spec(s: Seq<char>) -> Seq<char> {
    join(kept(words(s)))
}

proof fn lemma_glue_assoc(a: Seq<char>, w: Seq<char>, b: Seq<char>)
    requires
        w.len() > 0,
    ensures
        glue(glue(a, w), b) == glue(a, glue(w, b)),
{
    if a.len() > 0 && b.len() > 0 {
        assert((a + seq![' '] + w) + seq![' '] + b =~= a + seq![' '] + (w + seq![' '] + b));
    }
}

proof fn lemma_kept_cons(w: Seq<char>, ws: Seq<Seq<char>>)
    requires
        w.len() > 0,
    ensures
        join(kept(seq![w] + ws)) == (if is_field_code(w) {
            join(kept(ws))
        } else {
            glue(w, join(kept(ws)))
        }),
{
    let l = seq![w] + ws;
    assert(l[0] == w);
    assert(l.drop_first() =~= ws);
    if !is_field_code(w) {
        let k = seq![w] + kept(ws);
        assert(k[0] == w);
        assert(k.drop_first() =~= kept(ws));
    }
}

/// Appends the word `v[a..b]` to `out` unless it is a field code.
fn push_word(text: &str, v: &Vec<char>, a: usize, b: usize, out: &mut String)
    requires
        v@ == text@,
        a < b <= v.len(),
    ensures
        final(out)@ == (if is_field_code(v@.subrange(a as int, b as int)) {
            old(out)@
        } else {
            glue(old(out)@, v@.subrange(a as int, b as int))
        }),
{
    let ghost w = v@.subrange(a as int, b as int);
    assert(w[0] == v@[a as int]);
    if v[a] != '%' {
        let ghost before = out@;
        if !out.as_str().is_empty() {
            proof {
                reveal_strlit(" ");
            }
            out.append(" ");
        }
        out.append(text.substring_char(a, b));
        proof {
            if before.len() > 0 {
                assert(before + seq![' '] + w =~= glue(before, w));
            } else {
                assert(out@ =~= w);
            }
        }
    }
}

/// `exec` without field codes, words joined by single spaces.
pub fn strip_field_codes(exec: &str) -> (r: String)
    ensures
        r@ == strip_codes_spec(exec@),
{
    let v = to_chars(exec);
    let n = v.len();
    let mut out = String::new();
    let mut start: usize = 0;
    let mut i: usize = 0;
    assert(v@.skip(0) =~= v@);
    assert(v@.subrange(0, 0) =~= Seq::<char>::empty());
    while i < n
        invariant
            v@ == exec@,
            n == v.len(),
            start <= i <= n,
            strip_codes_spec(exec@) == glue(
                out@,
                join(kept(words_from(v@.skip(i as int), v@.subrange(start as int, i as int)))),
            ),
        decreases n - i,
    {
        let c = v[i];
        let ghost rem = v@.skip(i as int);
        let ghost cur = v@.subrange(start as int, i as int);
        assert(rem[0] == c);
        assert(rem.drop_first() =~= v@.skip(i + 1));
        if char_is_space(c) {
            if start < i {
                let ghost before = out@;
                let ghost tail = words_from(v@.skip(i + 1), seq![]);
                push_word(exec, &v, start, i, &mut out);
                proof {
                    lemma_kept_cons(cur, tail);
                    if !is_field_code(cur) {
                        lemma_glue_assoc(before, cur, join(kept(tail)));
                    }
                }
            }
            start = i + 1;
            assert(v@.subrange(start as int, i + 1) =~= Seq::<char>::empty());
        } else {
            assert(cur.push(c) =~= v@.subrange(start as int, i + 1));
        }
        i = i + 1;
    }
    let ghost cur = v@.subrange(start as int, n as int);
    assert(v@.skip(n as int) =~= Seq::<char>::empty());
    if start < n {
        let ghost before = out@;
        push_word(exec, &v, start, n, &mut out);
        proof {
            lemma_kept_cons(cur, seq![]);
            assert(seq![cur] + Seq::<Seq<char>>::empty() =~= seq![cur]);
        }
    }
    out
}

// ---------------------------------------------------------------------------
// Lines and the desktop entry group.

/// The lines of `s`, the first of them continuing the partial line `cur`:
/// split at `'\n'`, with no empty line after a final `'\n'` (as
/// `str::lines`; a `'\r'` before the `'\n'` is white space and goes with
/// `trim`).
pub open spec fn lines_from(s: Seq<char>, cur: Seq<char>) -> Seq<Seq<char>>
    decreases s.len(),
{
    if s.len() == 0 {
        if cur.len() == 0 {
            seq![]
        } else {
            seq![cur]
        }
    } else if s[0] == '\n' {
        seq![cur] + lines_from(s.drop_first(), seq![])
    } else {
        lines_from(s.drop_first(), cur.push(s[0]))
    }
}

pub open spec fn ascii_lower(c: char) -> u32 {
    let u = c as u32;
    if 65 <= u <= 90 {
        (u + 32) as u32
    } else {
        u
    }
}

/// Equal up to ASCII case, as `str::eq_ignore_ascii_case`.
pub open spec fn eq_ignore_ascii_case(a: Seq<char>, b: Seq<char>) -> bool {
    &&& a.len() == b.len()
    &&& forall|i: int| 0 <= i < a.len() ==> ascii_lower(#[trigger] a[i]) == ascii_lower(b[i])
}

pub open spec fn starts_with(s: Seq<char>, p: Seq<char>) -> bool {
    p.len() <= s.len() && s.take(p.len() as int) == p
}

/// Scanner state: inside the `[Desktop Entry]` group, and the command so far.
pub open spec fn scan_line(st: (bool, Seq<char>), raw: Seq<char>) -> (bool, Seq<char>) {
    let line = trim(raw);
    if line.len() > 0 && line[0] == '[' {
        (eq_ignore_ascii_case(line, "[Desktop Entry]"@), st.1)
    } else if st.0 && starts_with(line, "Exec="@) {
        (st.0, strip_codes_spec(line.skip("Exec="@.len() as int)))
    } else {
        st
    }
}

pub open spec fn scan_lines(ls: Seq<Seq<char>>, st: (bool, Seq<char>)) -> (bool, Seq<char>)
    decreases ls.len(),
{
    if ls.len() == 0 {
        st
    } else {
        scan_lines(ls.drop_first(), scan_line(st, ls[0]))
    }
}

/// The command of a desktop entry: the last `Exec=` line of the
/// `[Desktop Entry]` group, field codes removed; empty when there is none.
pub open spec fn desktop_exec_spec(text: Seq<char>) -> Seq<char> {
    scan_lines(lines_from(text, seq![]), (false, seq![])).1
}

fn char_lower(c: char) -> (r: u32)
    ensures
        r == ascii_lower(c),
{
    let u = c as u32;
    if 65 <= u && u <= 90 {
        u + 32
    } else {
        u
    }
}

/// Whether `v[a..b]` equals `p` up to ASCII case.
fn range_eq_ignore_case(v: &Vec<char>, a: usize, b: usize, p: &Vec<char>) -> (r: bool)
    requires
        a <= b <= v.len(),
    ensures
        r == eq_ignore_ascii_case(v@.subrange(a as int, b as int), p@),
{
    let ghost s = v@.subrange(a as int, b as int);
    if b - a != p.len() {
        return false;
    }
    let mut i: usize = 0;
    while i < p.len()
        invariant
            a <= b <= v.len(),
            b - a == p.len(),
            s == v@.subrange(a as int, b as int),
            0 <= i <= p.len(),
            forall|k: int| 0 <= k < i ==> ascii_lower(#[trigger] s[k]) == ascii_lower(p@[k]),
        decreases p.len() - i,
    {
        assert(s[i as int] == v@[a + i]);
        if char_lower(v[a + i]) != char_lower(p[i]) {
            return false;
        }
        i = i + 1;
    }
    true
}

/// Whether `v[a..b]` starts with `p`.
fn range_starts_with(v: &Vec<char>, a: usize, b: usize, p: &Vec<char>) -> (r: bool)
    requires
        a <= b <= v.len(),
    ensures
        r == starts_with(v@.subrange(a as int, b as int), p@),
{
    let ghost s = v@.subrange(a as int, b as int);
    if b - a < p.len() {
        return false;
    }
    let mut i: usize = 0;
    while i < p.len()
        invariant
            a <= b <= v.len(),
            p.len() <= b - a,
            s == v@.subrange(a as int, b as int),
            0 <= i <= p.len(),
            forall|k: int| 0 <= k < i ==> #[trigger] s[k] == p@[k],
        decreases p.len() - i,
    {
        assert(s[i as int] == v@[a + i]);
        if v[a + i] != p[i] {
            assert(s.take(p.len() as int)[i as int] != p@[i as int]);
            return false;
        }
        i = i + 1;
    }
    assert(s.take(p.len() as int) =~= p@);
    true
}

/// One line of the scan: `text[a..b]`, the state in `in_entry` and `exec`.
fn scan_one(
    text: &str,
    v: &Vec<char>,
    a: usize,
    b: usize,
    in_entry: &mut bool,
    exec: &mut String,
)
    requires
        v@ == text@,
        a <= b <= v.len(),
    ensures
        (*final(in_entry), final(exec)@) == scan_line(
            (*old(in_entry), old(exec)@),
            v@.subrange(a as int, b as int),
        ),
{
    let (x, y) = trim_range(v, a, b);
    let ghost line = v@.subrange(x as int, y as int);
    if x < y && v[x] == '[' {
        assert(line[0] == v@[x as int]);
        let header = to_chars("[Desktop Entry]");
        *in_entry = range_eq_ignore_case(v, x, y, &header);
        return ;
    }
    proof {
        if x < y {
            assert(line[0] == v@[x as int]);
        }
    }
    if *in_entry {
        let key = to_chars("Exec=");
        if range_starts_with(v, x, y, &key) {
            let rest = text.substring_char(x + key.len(), y);
            assert(rest@ =~= line.skip(key@.len() as int));
            *exec = strip_field_codes(rest);
        }
    }
}

/// The command that a desktop entry's text launches (see
/// `desktop_exec_spec`).
pub fn desktop_exec(text: &str) -> (r: String)
    ensures
        r@ == desktop_exec_spec(text@),
{
    let v = to_chars(text);
    let n = v.len();
    let mut in_entry = false;
    let mut exec = String::new();
    let mut start: usize = 0;
    let mut i: usize = 0;
    assert(v@.skip(0) =~= v@);
    assert(v@.subrange(0, 0) =~= Seq::<char>::empty());
    while i < n
        invariant
            v@ == text@,
            n == v.len(),
            start <= i <= n,
            desktop_exec_spec(text@) == scan_lines(
                lines_from(v@.skip(i as int), v@.subrange(start as int, i as int)),
                (in_entry, exec@),
            ).1,
        decreases n - i,
    {
        let c = v[i];
        let ghost rem = v@.skip(i as int);
        let ghost cur = v@.subrange(start as int, i as int);
        assert(rem[0] == c);
        assert(rem.drop_first() =~= v@.skip(i + 1));
        if c == '\n' {
            let ghost tail = lines_from(v@.skip(i + 1), seq![]);
            let ghost l = seq![cur] + tail;
            assert(l[0] == cur);
            assert(l.drop_first() =~= tail);
            scan_one(text, &v, start, i, &mut in_entry, &mut exec);
            start = i + 1;
            assert(v@.subrange(start as int, i + 1) =~= Seq::<char>::empty());
        } else {
            assert(cur.push(c) =~= v@.subrange(start as int, i + 1));
        }
        i = i + 1;
    }
    assert(v@.skip(n as int) =~= Seq::<char>::empty());
    if start == n {
        assert(v@.subrange(start as int, n as int) =~= Seq::<char>::empty());
    }
    if start < n {
        let ghost cur = v@.subrange(start as int, n as int);
        let ghost st = (in_entry, exec@);
        assert(seq![cur].drop_first() =~= Seq::<Seq<char>>::empty());
        assert(lines_from(v@.skip(n as int), cur) == seq![cur]);
        assert(scan_lines(seq![cur], st) == scan_lines(Seq::<Seq<char>>::empty(), scan_line(st, cur)));
        scan_one(text, &v, start, n, &mut in_entry, &mut exec);
        assert(scan_lines(Seq::<Seq<char>>::empty(), (in_entry, exec@)) == (in_entry, exec@));
    }
    exec
}

} // verus!
